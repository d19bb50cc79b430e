//! A crate for reading bitfields that are defined at runtime.
//!
//! The primary use case is to avoid having to write a full protocol analyzer
//! for every new protocol and system you're dealing with. Bitview facilitates
//! rapidly describing the layout of a structure, and then plugging numbers in
//! to get the corresponding field values.
//!
//! Layout types:
//!
//! - The [`Field`] enumeration describes the kinds of values a single field
//!   can represent.
//! - The [`Structure`] struct is composed of multiple [`Field`]s to describe
//!   the internal layout of a complex value. The first field in a structure is
//!   the most significant; the last is the least significant (bit offset 0).
//!
//! Values:
//!
//! - The [`Value`] struct is composed of a [`Structure`] and an actual source
//!   value, and can be used to extract field values by name.

pub mod types;
pub mod values;

pub use types::EnumMapping;
pub use types::Field;
pub use types::FieldName;
pub use types::FieldSize;
pub use types::FieldView;
pub use types::Structure;
pub use types::StructureView;
pub use values::Value;
pub use values::ValueView;
