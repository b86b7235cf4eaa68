//! The text form of a table: a box of three bands of three rows, each row
//! in three groups of three cells.

use vstd::prelude::*;

use crate::point::Point;
use crate::table::Table;
use crate::table::TABLE_SIZE;
use crate::Selectable;

verus! {

/// `String::push_str` appends the characters of `string` to `text` and
/// changes nothing else.
pub assume_specification[ String::push_str ](text: &mut String, string: &str)
    ensures
        final(text)@ == old(text)@ + string@,
;

/// `String::push` appends the character `ch` to `text` and changes
/// nothing else.
pub assume_specification[ String::push ](text: &mut String, ch: char)
    ensures
        final(text)@ == old(text)@.push(ch),
;

/// The decimal digit `digit`, which is less than 10, as a character.
pub open spec fn digit_char(digit: u8) -> char {
    (48 + digit) as char
}

/// The decimal digits of `value`, without leading zeros.
pub open spec fn decimal(value: u8) -> Seq<char> {
    if value >= 100 {
        seq![
            digit_char(value / 100),
            digit_char((value / 10) % 10),
            digit_char(value % 10),
        ]
    } else if value >= 10 {
        seq![digit_char(value / 10), digit_char(value % 10)]
    } else {
        seq![digit_char(value)]
    }
}

/// The text of a cell: a blank for an empty cell, else the value in
/// decimal.
pub open spec fn cell_text(value: u8) -> Seq<char> {
    if value == 0 {
        seq![' ']
    } else {
        decimal(value)
    }
}

/// The text of the cells `from`, `from + 1` and `from + 2` of row `y`,
/// each preceded by a blank.
pub open spec fn group_text(table: Table, y: int, from: int) -> Seq<char> {
    seq![' '] + cell_text(table.cell(from, y)) + seq![' '] + cell_text(table.cell(from + 1, y))
        + seq![' '] + cell_text(table.cell(from + 2, y))
}

/// The line of row `y`.
pub open spec fn row_text(table: Table, y: int) -> Seq<char> {
    "│"@ + group_text(table, y, 0) + " │"@ + group_text(table, y, 3) + " │"@ + group_text(
        table,
        y,
        6,
    ) + " │\n"@
}

/// The lines of the rows `from`, `from + 1` and `from + 2`.
pub open spec fn band_text(table: Table, from: int) -> Seq<char> {
    row_text(table, from) + row_text(table, from + 1) + row_text(table, from + 2)
}

/// The text of a table.
pub open spec fn table_text(table: Table) -> Seq<char> {
    "┌───────┬───────┬───────┐\n"@ + band_text(table, 0) + "├───────┼───────┼───────┤\n"@
        + band_text(table, 3) + "├───────┼───────┼───────┤\n"@ + band_text(table, 6)
        + "└───────┴───────┴───────┘\n"@
}

/// Appends the text of a cell that holds `value`.
pub fn push_cell(text: &mut String, value: u8)
    ensures
        final(text)@ == old(text)@ + cell_text(value),
{
    if value == 0 {
        text.push(' ');
    } else {
        if value >= 100 {
            text.push((48 + value / 100) as char);
        }
        if value >= 10 {
            text.push((48 + (value / 10) % 10) as char);
        }
        text.push((48 + value % 10) as char);
    }
    assert(text@ =~= old(text)@ + cell_text(value));
}

impl Table {
    /// Appends the three cells of row `y` that start at column `from`,
    /// each preceded by a blank.
    fn push_group(&self, text: &mut String, y: usize, from: usize)
        requires
            y < TABLE_SIZE,
            from + 2 < TABLE_SIZE,
        ensures
            final(text)@ == old(text)@ + group_text(*self, y as int, from as int),
    {
        text.push(' ');
        push_cell(text, self.value_in_point(&Point { x: from, y }).unwrap());
        text.push(' ');
        push_cell(text, self.value_in_point(&Point { x: from + 1, y }).unwrap());
        text.push(' ');
        push_cell(text, self.value_in_point(&Point { x: from + 2, y }).unwrap());
        assert(text@ =~= old(text)@ + group_text(*self, y as int, from as int));
    }

    /// Appends the line of row `y`.
    fn push_row(&self, text: &mut String, y: usize)
        requires
            y < TABLE_SIZE,
        ensures
            final(text)@ == old(text)@ + row_text(*self, y as int),
    {
        text.push_str("│");
        self.push_group(text, y, 0);
        text.push_str(" │");
        self.push_group(text, y, 3);
        text.push_str(" │");
        self.push_group(text, y, 6);
        text.push_str(" │\n");
        assert(text@ =~= old(text)@ + row_text(*self, y as int));
    }

    /// Appends the lines of the three rows that start at row `from`.
    fn push_band(&self, text: &mut String, from: usize)
        requires
            from + 2 < TABLE_SIZE,
        ensures
            final(text)@ == old(text)@ + band_text(*self, from as int),
    {
        self.push_row(text, from);
        self.push_row(text, from + 1);
        self.push_row(text, from + 2);
        assert(text@ =~= old(text)@ + band_text(*self, from as int));
    }

    /// The table as a box of text: nine lines of cells between a top and a
    /// bottom line, with a separating line after the third and the sixth.
    /// An empty cell shows as a blank, any other as its value in decimal.
    pub fn render(&self) -> (text: String)
        ensures
            text@ == table_text(*self),
    {
        let mut text = String::new();
        text.push_str("┌───────┬───────┬───────┐\n");
        self.push_band(&mut text, 0);
        text.push_str("├───────┼───────┼───────┤\n");
        self.push_band(&mut text, 3);
        text.push_str("├───────┼───────┼───────┤\n");
        self.push_band(&mut text, 6);
        text.push_str("└───────┴───────┴───────┘\n");
        assert(text@ =~= table_text(*self));
        text
    }
}

} // verus!
