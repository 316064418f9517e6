//! Object-oriented quality metrics over Java syntax trees: access to foreign
//! data, weighted methods per class, tight class cohesion, and the God Class
//! verdict that combines them.

pub mod syntax;
pub mod count;
pub mod method;
pub mod class;
pub mod error;
pub mod metrics;
pub mod laws;
pub mod outline;
