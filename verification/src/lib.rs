//! A small Newtonian n-body simulation core: bodies attract each other
//! pairwise, advance by semi-implicit Euler integration, and merge on
//! overlap. All quantities are fixed-point integers (micro-units), so the
//! whole engine is checked end to end.

pub mod color;
pub mod physics;
pub mod planet;
pub mod system;
pub mod util;
pub mod vec2;
