//! Multimedia content: 3D artwork, rich media and sound.

pub mod av;
pub mod richmedia;
pub mod threed;
