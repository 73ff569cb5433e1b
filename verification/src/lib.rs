//! Slideshows of tagged photos.
//!
//! A photo is wide or tall and carries a list of tags. A wide photo fills a
//! slide alone, two tall photos share one. The interest of two neighbouring
//! slides grows with the share of repeated tags among the tags of both, and
//! the library searches for the pairing of the tall photos and the order of
//! the slides with the highest sum of interests between neighbours.
//!
//! `parse` reads the photos from text, `search` finds the slideshow and
//! `deserialize` writes it as text. Every function is verified with Verus
//! against the contract it states, but for the calls into other crates that
//! `trusted` gathers.

pub mod builder;
pub mod parse;
pub mod photo;
pub mod render;
pub mod score;
pub mod search;
pub mod tags;
pub mod trusted;

pub use builder::{build, build_slides};
pub use parse::{parse, ParseError};
pub use photo::{Orientation, Photo, PhotoView, Slide, SlideView};
pub use render::{deserialize, deserialize_found, deserialize_slide};
pub use score::{score_slide, score_slideshow};
pub use search::{generate_slideshow, search};
