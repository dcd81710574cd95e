//! A signal pipeline that turns audio spectra into display bars.
//!
//! Samples are cut into frames ([`frame`]); the magnitudes of a frame's
//! spectrum are cut to the displayed band ([`band`]), cleaned of ambient
//! noise ([`noise`]), smoothed over time and across neighbours ([`smooth`]),
//! mapped to bars ([`bars`]) with their colours ([`color`]) and handed to the
//! renderer ([`handoff`]).  [`pipeline`] chains the stages for one frame
//! at a time; [`utils`] fits a whole spectrum to a pixel canvas.
//!
//! Every quantity that is fractional by nature (magnitudes, smoothing
//! factors, frequencies, durations) is carried as an unsigned integer counted
//! in millionths, see [`fixed::UNIT`].  Window, transform and norm, which
//! compute in floating point, are left to the caller: the pipeline starts at
//! the magnitudes.

pub mod fixed;
pub mod vectors;
pub mod config;
pub mod frame;
pub mod band;
pub mod noise;
pub mod smooth;
pub mod bars;
pub mod color;
pub mod handoff;
pub mod pipeline;
pub mod utils;
