//! Hebrew calendar arithmetic, Unicode line breaking, and a small cursor for
//! date/time text, each with its behaviour stated in contracts.

pub mod cursor;
pub mod date;
pub mod hebrew;
pub mod iso;
pub mod keviyah;
pub mod line;
pub mod rule_data;
