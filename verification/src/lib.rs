//! Feature extraction scheduling, sequence and predictor stores, and the
//! classification evaluator of a linear-prediction audio toolchain.

pub mod error;
pub mod frames;
pub mod schedule;
pub mod score;
pub mod ranking;
pub mod c12n;
pub mod report;
pub mod text;
pub mod codec;
pub mod sequence;
pub mod opts;
pub mod prd;
pub mod seq;
pub mod nbayes;
pub mod registry;
pub mod utl;
