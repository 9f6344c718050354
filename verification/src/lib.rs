//! Metadata-only handles for zero-sized trait-object values.
//!
//! A reference to a trait object is two words: the data address and the
//! pointer metadata, a reference to the vtable. For a zero-sized implementor
//! the data address carries nothing, so a [`zst_box::DynZSTLifetime`] keeps
//! only the metadata, one word, and rebuilds the reference on demand from a
//! synthetic address: the alignment that the vtable records, which is
//! non-null and aligned for the erased type.
//!
//! [`vec::DynZSTVec`] keeps many such handles in order.

pub mod metadata;
pub mod same_size;
pub mod same_type;
pub mod vec;
pub mod zst_box;

pub use crate::metadata::{DynMetadata, DynRef, VTable};
pub use crate::same_size::IsZeroSizedExt;
pub use crate::same_type::SameType;
pub use crate::zst_box::{DynZSTBox, DynZSTLifetime};
