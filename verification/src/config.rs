//! The service configuration.

use vstd::prelude::*;

verus! {

/// The configuration of the page-assembly service: where its state lives and
/// where uploaded images are kept.
#[derive(Clone, Debug, Eq, Hash, Ord, PartialEq, PartialOrd)]
pub struct Config {
    pub state_file_path: String,
    pub image_dir: String,
}

} // verus!
