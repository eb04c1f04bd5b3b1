//! Decision core of an offline ray-tracing renderer.
//!
//! Scalar geometry (points, vectors, matrices, colors) lives outside this
//! crate; every quantity that crosses into it is a plain value: an order
//! key standing for a ray parameter, an index standing for a shape, a byte
//! standing for a quantized color channel.  On those values this crate
//! selects hits, walks the refraction container stack, sorts intersection
//! lists, drives the bounded recursive shading loop, stores pixels and
//! encodes them as PPM text.

pub mod camera;
pub mod canvas;
pub mod epsilon;
pub mod intersection;
pub mod ppm;
pub mod world;
