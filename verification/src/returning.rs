//! The projection clause of a statement.

use vstd::prelude::*;

verus! {

/// What a statement yields. `Star` ("all columns") is the default for a
/// freshly constructed statement; explicit column lists and aggregates are an
/// extension point of lower layers, so this layer defines `Star` alone.
#[derive(Clone, Copy, Debug, PartialEq, Eq, Structural)]
pub enum Returning {
    Star,
}

} // verus!
