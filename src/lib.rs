//! Verified core of a ray tracer: the parts of the light-transport pipeline
//! whose decisions are discrete (primitive variants, matrix index bookkeeping,
//! pattern parity, refractive-index tracking, recursion budgets, pixel layout
//! and image framing).

pub mod shapes;
pub mod media;
pub mod ppm;
pub mod canvas;
pub mod pattern;
pub mod matrix;
pub mod transport;
