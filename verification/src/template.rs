//! Object templates.

use std::sync::Arc;

use vstd::prelude::*;

use crate::objects::ObjectData;
use crate::tileset::Tileset;

verus! {

/// A template, consisting of an object and a tileset
///
/// Templates define a tileset and object data to use for an object that can be shared between multiple objects and
/// maps.
#[derive(Debug, Clone)]
pub struct Template {
    /// The path first used to load this template.
    pub source: String,
    /// The tileset this template contains a reference to
    pub tileset: Option<Arc<Tileset>>,
    /// The object data for this template
    pub object: ObjectData,
}

} // verus!
