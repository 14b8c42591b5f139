//! Sprite atlas maintenance: the sprite manifest model, pixel comparison of
//! duplicated frames, copying one frame's art into its duplicates, painting
//! frames into an atlas, and turning file changes into changed-sprite events.
pub mod catalog;
pub mod check;
pub mod pack;
pub mod raster;
pub mod replace;
pub mod session;
pub mod settings;
pub mod sprite;
pub mod watch;
