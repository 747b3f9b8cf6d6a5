//! Float-free decision logic of a small sphere path tracer: the image
//! layout and pixel order, the bounce budget of a traced path, and the
//! choice of the nearest surface hit on ordered distance keys.
pub mod bounce;
pub mod color;
pub mod frame;
pub mod material;
pub mod nearest;
