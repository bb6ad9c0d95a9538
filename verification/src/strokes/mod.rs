//! The stroke kinds and the contract that they share.

pub mod bitmapimage;
pub mod brushstroke;
pub mod content;
pub mod markerstroke;
pub mod shapestroke;
pub mod strokestyle;
pub mod vectorimage;
