//! Geometry and movement rules for a cart that traces the outline of pixel
//! art and fills in its pixels.
//!
//! The picture is a grid of cells. The cells that are drawn already form the
//! ground; the cart glides along the boundary of the ground, turns around its
//! convex corners and in its concave ones, is pushed outward by each pixel it
//! draws, and takes a shortcut to the next pixel where that cannot be reached
//! by walking. All lengths are whole sub-units of a cell and all times whole
//! milliseconds.
//!
//! - [`vector`], [`side`], [`grid`]: coordinates, the sides and corners of a
//!   cell, and the dense grid.
//! - [`ground`], [`boundary`]: which cells are filled, how the boundary is
//!   walked from edge to edge, and the boundary as a graph.
//! - [`cart`], [`step`], [`walker`], [`walk`]: the states of the cart, what a
//!   tick does to it, the walker that owns cart and ground, and what holds of
//!   every tick.
//! - [`graph`], [`edge_set`], [`zip`]: breadth-first search, the set of
//!   marked edges, and the search for a shortcut.
//! - [`sprite`]: where the cart and the growing pixel are drawn.
//! - [`art`], [`ordering`], [`state`]: the picture, the order in which its
//!   pixels are drawn, and the states of the game.

pub mod art;
pub mod boundary;
pub mod cart;
pub mod edge_set;
pub mod graph;
pub mod grid;
pub mod ground;
pub mod ordering;
pub mod side;
pub mod sprite;
pub mod state;
pub mod step;
pub mod vector;
pub mod walk;
pub mod walker;
pub mod zip;
