pub mod cell;
pub mod config;
pub mod dataset;
pub mod filter;
pub mod layer;
pub mod sort;
pub mod source;
pub mod text;
