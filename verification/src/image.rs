//! Images referenced by tilesets and image layers.

use vstd::prelude::*;

use crate::properties::Color;

verus! {

/// An image stored separately from the document.
#[derive(Debug, PartialEq, Clone)]
pub struct Image {
    /// The path of the image, relative to the document that references it.
    pub source: String,
    /// The width in pixels of the image.
    pub width: i32,
    /// The height in pixels of the image.
    pub height: i32,
    /// A color that is treated as transparent in this image, if any.
    pub transparent_colour: Option<Color>,
}

} // verus!
