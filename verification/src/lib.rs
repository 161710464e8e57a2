//! Verified puzzle solvers: a chained range-remapping engine and a
//! cube-game record reader.

pub mod almanac;
pub mod cubes;
pub mod interval;
pub mod pipeline;
pub mod reader;
pub mod text;
