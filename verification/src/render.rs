//! The frame's closed vocabularies: which pass a quad is drawn in, and which face text is
//! shaped with.
use vstd::prelude::*;

verus! {

/// Which pass a world quad belongs to. Opaque geometry writes depth; overlays test
/// against it and do not.
#[derive(Clone, Copy, Debug, PartialEq, Eq, Structural)]
pub enum Layer {
    Opaque,
    Overlay,
}

/// Which face to shape text with. Monospace keeps numeric columns stable.
#[derive(Clone, Copy, Debug, PartialEq, Eq, Structural)]
pub enum Face {
    Body,
    Mono,
}

} // verus!
