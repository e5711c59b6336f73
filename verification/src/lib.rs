//! A raster-image drawing engine for pixel-exact art creation.
//!
//! The engine turns pointer motion into deterministic, artifact-free pixel
//! strokes, maintains a multi-layer image with full undo/redo, and offers
//! derived operations (flood fill, symmetric mirroring, shape simplification)
//! that produce pixel-identical results given the same input sequence.
//!
//! The crate is organized leaf-first: geometry primitives, colors and the
//! coordinate-unique pixel set at the bottom; the rasterization, flood-fill
//! and symmetry algorithms above them; then layers, the snapshot history and
//! the document; and finally the interactive tools that drive it all.

pub mod algorithms;
pub mod brush;
pub mod color;
pub mod geom;
pub mod history;
pub mod layer;
pub mod pixels;
pub mod polyline;
pub mod tools;
pub mod xprite;
