//! A faceted, multi-column filtering engine for in-memory tables.
//!
//! Each column owns an exclusion set of values and a pending search text;
//! a row is visible when no column excludes its value.  Search patterns
//! follow a small per-kind grammar (prefixes, comparisons, ranges), and the
//! facet of a column is the set of its values still reachable under every
//! other column's filter.
//!
//! Rows reach the engine as one `Cell` per column, in the order in which
//! the columns were added: the value that identifies the cell and the text
//! that displays it.
pub mod column;
pub mod date;
pub mod laws;
pub mod menu;
pub mod number;
pub mod pattern;
pub mod table;
pub mod text;
pub mod value;

pub use column::{ColumnFilterImpl, ColumnKind, ColumnModel};
pub use menu::MenuEntry;
pub use number::{parse_i32, parse_u32};
pub use pattern::{
    BoolColumnFilter, ColumnFilter, I32ColumnFilter, KindModel, MemberColumnFilter,
    NaiveDateColumnFilter, StringColumnFilter,
    U32ColumnFilter,
};
pub use table::{FilterCommand, TableFilter};
pub use value::{Cell, ScalarModel, ScalarValue};
