//! The icons that the interface draws.

use vstd::prelude::*;

verus! {

/// An icon of the interface.
#[derive(Clone, Copy, Debug, PartialEq, Eq)]
pub enum Icon {
    Download,
    Folder,
    Link,
    Trash,
}

} // verus!
