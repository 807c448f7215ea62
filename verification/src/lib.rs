pub mod cli;
pub mod lens;
pub mod parsers;
pub mod primitives;
pub mod ticks;
pub mod types;
