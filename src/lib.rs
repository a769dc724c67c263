pub mod frame;
pub mod laws;
pub mod meter;
pub mod rx;
pub mod timing;
pub mod tx;
