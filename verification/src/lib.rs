//! Row codec and value model of a table-oriented binary store: typed cell
//! values, an interning string pool, the column-major row layout, and a
//! forward-only cursor over decoded rows.

pub mod column;
pub mod round_trip;
pub mod stringpool;
pub mod table;
pub mod value;
