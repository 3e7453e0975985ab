//! A polyomino body that is reshaped by transformer zones and matched against
//! target silhouettes.

pub mod cave;
pub mod level;
pub mod player;
pub mod shape;
pub mod transformer;
