//! Turns a vector scene (filled and stroked paths, each with its transform)
//! into a flat mesh for the GPU: a vertex buffer, an index buffer, and two
//! tables, of primitives and of transforms, that a vertex reaches through
//! the index it carries.
//!
//! No value in this crate is a floating-point number. A coordinate, a stroke
//! width or a matrix entry is held as its IEEE-754 bit pattern, which this
//! crate moves and compares but never computes with. Triangulation itself is
//! done by whoever drives a [`driver::Walk`]: the walk says which pass to run
//! next and takes the triangles back.
//!
//! - [`scene`] is the input, [`mesh`] the output, [`layout`] the output as
//!   bytes.
//! - [`path`] turns the outline of a path into the events of a pass, and
//!   [`paint`] its paints into a colour and the options of a pass.
//! - [`transform`] shares one record among neighbours with equal
//!   transforms.
//! - [`walk`] says what a walk over a scene does, [`driver`] does it, and
//!   [`laws`] proves what holds of every walk.
//! - [`tessellator`] keeps a scene and starts the walks over it.

pub mod geom;
pub mod scene;
pub mod path;
pub mod paint;
pub mod mesh;
pub mod transform;
pub mod walk;
pub mod laws;
pub mod driver;
pub mod tessellator;
pub mod layout;
