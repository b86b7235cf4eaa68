//! Choosing points of a table: the lines through a point, and the next
//! empty cell in a scan order.

pub mod empty_point_search;
pub mod line_point_selection;
