//! A serialization engine whose streams can be read back in two ways: in
//! full, into values that own all of their parts, or in place, into views
//! that refer to the regions of the buffer where the data already stand.
//!
//! A type is described by a [`types::TypeDesc`] and a value is held as a
//! [`value::Value`]. The description classifies the type as `Zero`, `Shell`
//! or `Deep`, and the classification decides how values are written and how
//! they are read back: a value of a `Zero` type is written as its image in
//! memory, after padding to its alignment, and a view refers to it where
//! it stands.
//!
//! * [`align`] has the arithmetic of padding.
//! * [`prim`] has the primitive types and the bytes of numbers.
//! * [`types`] and [`value`] have the descriptions of types and the values.
//! * [`layout`] says what bytes a value is written as, and [`decode`] what
//!   reading bytes gives; [`laws`] proves that the two fit together.
//! * [`writer`], [`schema`] and [`ser`] write streams; [`deser`] and
//!   [`eps`] read them; [`fingerprint`] guards reading against streams of
//!   another type.
//!
//! Every function of this crate carries a contract that Verus proves. The
//! bytes of numbers stand lowest first, and a `usize` takes eight bytes.
pub mod align;
pub mod decode;
pub mod deser;
pub mod eps;
pub mod error;
pub mod fingerprint;
pub mod laws;
pub mod layout;
pub mod names;
pub mod prim;
pub mod rows;
pub mod schema;
pub mod ser;
pub mod text;
pub mod trace;
pub mod types;
pub mod value;
pub mod writer;
