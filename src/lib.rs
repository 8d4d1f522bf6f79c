//! Card lines for a 2D scene: ordered, bounded rows of cards, with hovering,
//! dragging and smooth motion toward the poses that the layout assigns.
pub mod card_line;
pub mod dispatcher;
pub mod dragging;
pub mod frame;
pub mod geometry;
pub mod hovering;
pub mod mover;
pub mod namer;
