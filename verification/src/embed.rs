//! Embedded image metadata carried by rich-content messages.

use vstd::prelude::*;

verus! {

/// An image attached to an embed, with its proxied form and dimensions
/// when the service knows them.
#[derive(Clone, Debug, PartialEq, Eq, Hash)]
pub struct EmbedImage {
    pub height: Option<u64>,
    pub proxy_url: Option<String>,
    pub url: Option<String>,
    pub width: Option<u64>,
}

} // verus!
