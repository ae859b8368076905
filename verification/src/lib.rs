//! Type tables, struct layout, conversion of selection DAGs into machine
//! instructions and liveness intervals of a small compiler back end, with
//! their contracts.

pub mod arena;
pub mod dag;
pub mod fxhash;
pub mod machine;
pub mod liveness;
pub mod mc_convert;
pub mod register;
pub mod text;
pub mod types;
