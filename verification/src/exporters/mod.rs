pub mod csv;
pub mod markdown;
