//! Verified core of a falling-block game.
//!
//! A single piece moves over a fixed 20 x 30 grid of cells. The library
//! holds the grid and piece data types, the collision checks against the
//! grid borders and the settled cells, the 90-degree rotation of a piece's
//! shape, the per-frame update step, and the computation of the pixel
//! rectangles that a renderer draws. A small toroidal Life universe with
//! its neighbour count sits beside them. Windowing, event polling and
//! drawing themselves live outside the library.

pub mod board;
pub mod draw;
pub mod life;
pub mod motion;
pub mod piece;
