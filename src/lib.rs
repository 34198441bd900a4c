//! Fixed-width text tables: column widths are shared out fairly within a
//! total budget and cell text is word-wrapped into the width of its column.
pub mod table;
pub mod text;
pub mod widths;
pub mod wrap;

pub use table::{Row, Table, TableConfig};
pub use widths::{distribute, flying, max_merge};
pub use wrap::split;
