//! A binary-layout engine: structured, variable-length, self-describing
//! records are described by a capability contract (`FlatSerializable`), and
//! parsed from, or written as, flat byte images in little-endian order with
//! alignment padding inserted exactly where the layout rules require it.
//!
//! The crate is organised by the layers of the engine:
//! - [`contract`] states the capability contract every record type meets;
//! - [`scalars`] and [`arrays`] give the leaf implementations;
//! - [`sequence`] is the variable-count sequence engine (`Iterable`);
//! - [`layout`] computes the static layout facts of composite schemas;
//! - [`records`], [`unions`], [`nesting`] and [`plain`] hold the compiled
//!   record shapes.
use vstd::prelude::*;

pub mod arrays;
pub mod contract;
pub mod layout;
pub mod nesting;
pub mod plain;
pub mod records;
pub mod scalars;
pub mod sequence;
pub mod unions;

pub use contract::FlatSerializable;
pub use contract::Outcome;
pub use nesting::Nested;
pub use nesting::NestedOptional;
pub use nesting::NestedSlice;
pub use plain::Bar;
pub use plain::Foo;
pub use records::Basic;
pub use records::Optional;
pub use sequence::aligning_len;
pub use sequence::len_of_iterable;
pub use sequence::Iter;
pub use sequence::Iterable;
pub use sequence::Slice;
pub use unions::BasicEnum;
pub use unions::PaddedEnum;

verus! {

/// The two recoverable decode failures: the input was too short for the
/// field or element under the cursor (with the number of bytes that field
/// needed), or a union discriminant matched no declared variant.
#[derive(Debug)]
pub enum WrapErr {
    NotEnoughBytes(usize),
    InvalidTag(usize),
}

} // verus!
