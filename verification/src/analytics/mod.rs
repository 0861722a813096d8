pub mod bus_factor;
pub mod coupling;
pub mod engine;
pub mod languages;
pub mod rows;
pub mod timeline;
pub mod totals;
