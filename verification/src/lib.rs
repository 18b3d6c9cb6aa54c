//! Signal-processing blocks for software-defined radio.

pub mod apt;
pub mod arith;
pub mod block;
pub mod channel;
pub mod complex;
pub mod convert;
pub mod correction;
pub mod decim_taps;
pub mod demod;
pub mod exact;
pub mod fft;
pub mod filter;
pub mod gpu_fft;
pub mod integers;
pub mod kernel;
pub mod loops;
pub mod lrpt;
pub mod math;
pub mod multirate;
pub mod noise;
pub mod png;
pub mod powers;
pub mod propagation;
pub mod stereo;
pub mod stream;
pub mod taps;
pub mod types;
pub mod window;
