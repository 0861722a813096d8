pub mod date;
pub mod glob;
pub mod table;
