//! Element formats and their byte sizes.

use vstd::prelude::*;

verus! {

/// A declared element type for one vertex attribute, named after the
/// conventional graphics-API format identifiers.
///
/// A format selects the byte size of one of its elements (one 32-bit float
/// of `R32G32B32_SFLOAT`, one 8-bit channel of `R8G8B8A8_UNORM`); an
/// attribute's field holds a whole number of such elements.  Multi-planar
/// formats have no single element size, and looking theirs up fails.
#[allow(non_camel_case_types)]
#[derive(Clone, Copy, Debug, Hash, PartialEq, Eq, Structural)]
pub enum Format {
    R32_SFLOAT,
    R32G32_SFLOAT,
    R32G32B32_SFLOAT,
    R32G32B32A32_SFLOAT,
    R8G8B8A8_UNORM,
    R32_UINT,
    R32G32_UINT,
    G8_B8_R8_3PLANE_420_UNORM,
}

impl Format {
    /// Byte size of one element of this format, or `None` for a
    /// multi-planar format, which has no single element size.
    pub open spec fn byte_size_spec(self) -> Option<u32> {
        match self {
            Format::R32_SFLOAT => Some(4u32),
            Format::R32G32_SFLOAT => Some(4u32),
            Format::R32G32B32_SFLOAT => Some(4u32),
            Format::R32G32B32A32_SFLOAT => Some(4u32),
            Format::R8G8B8A8_UNORM => Some(1u32),
            Format::R32_UINT => Some(4u32),
            Format::R32G32_UINT => Some(4u32),
            Format::G8_B8_R8_3PLANE_420_UNORM => None,
        }
    }

    /// Every defined element size is positive.
    pub proof fn lemma_byte_size_positive(self)
        ensures
            self.byte_size_spec() matches Some(n) ==> n > 0,
    {
    }

    /// Byte size of one element of this format.
    pub fn byte_size(&self) -> (r: Option<u32>)
        ensures
            r == self.byte_size_spec(),
    {
        match self {
            Format::R32_SFLOAT => Some(4),
            Format::R32G32_SFLOAT => Some(4),
            Format::R32G32B32_SFLOAT => Some(4),
            Format::R32G32B32A32_SFLOAT => Some(4),
            Format::R8G8B8A8_UNORM => Some(1),
            Format::R32_UINT => Some(4),
            Format::R32G32_UINT => Some(4),
            Format::G8_B8_R8_3PLANE_420_UNORM => None,
        }
    }
}

} // verus!
