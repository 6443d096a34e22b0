//! Largest rectangle spanned by two vertices of a rectilinear lattice polygon.
//!
//! A polygon is a closed loop of integer points whose consecutive vertices
//! share a coordinate.  Two of its vertices, taken as opposite corners, span an
//! axis-aligned rectangle; the library decides which of those rectangles are
//! admissible and finds the ones that cover the most lattice cells.
//!
//! - [`point`]: lattice points and the cell count of a bounding box.
//! - [`order`]: betweenness of coordinates.
//! - [`predicates`]: the tests on a pair of corners.
//! - [`polygon`]: vertex lists that passed validation.
//! - [`pairs`]: the enumeration of pairs of vertices.
//! - [`search`]: the largest admissible rectangles, and merging partial searches.
//! - [`parse`]: vertex lists from text.
//! - [`outline`]: what a drawing starts from.

pub mod order;
pub mod outline;
pub mod pairs;
pub mod parse;
pub mod point;
pub mod point_order;
pub mod polygon;
pub mod predicates;
pub mod search;
