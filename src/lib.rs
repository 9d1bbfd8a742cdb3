//! An image-filtering pipeline: command tokens become a configuration and
//! layers of effects, and the layers' effect chains are applied in order to
//! the loaded image, of which the first layer's buffer is emitted.

pub mod builder;
pub mod config;
pub mod effect;
pub mod executor;
pub mod lemmas;
