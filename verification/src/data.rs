//! The kinds of data that can be edited.  New file formats get a new
//! variant here.

use vstd::prelude::*;

use crate::markdown::Markdown;

verus! {

/// Some data that can be edited.
#[derive(Debug)]
pub enum Data {
    /// The `Markdown` variant.
    Markdown(Markdown),
}

} // verus!
