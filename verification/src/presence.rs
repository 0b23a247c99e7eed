//! Presence activity assets: the image and hover-text handles an activity
//! may carry.

use vstd::prelude::*;

verus! {

/// The large and small image assets of an activity, each with its
/// hover text, all optional.
#[derive(Clone, Debug, PartialEq, Eq, Hash)]
pub struct ActivityAssets {
    pub large_image: Option<String>,
    pub large_text: Option<String>,
    pub small_image: Option<String>,
    pub small_text: Option<String>,
}

} // verus!
