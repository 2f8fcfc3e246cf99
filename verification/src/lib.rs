//! GameCase: a self-describing, hierarchical binary container format for
//! archiving a video game's assets, together with a seek index that allows
//! direct lookup of any entry without a full linear scan.
//!
//! The crate is organised around five components:
//! - the schema registry ([`schema`]): the static table mapping each numeric
//!   element identifier to a name and a value kind;
//! - the tag codec ([`vint`], [`codec`]): variable-length identifiers and
//!   sizes, and one element header at a time;
//! - the element tree and the streaming parser ([`element`], [`decode`],
//!   [`parser`]): encoding proved inverse to decoding, and a pull-based
//!   event cursor over a byte stream;
//! - the index builder and the random-access reader ([`case`], [`reader`]):
//!   the writer records the byte offset of every indexable entry and plants
//!   the `Index` element first; the reader seeks, validates, and falls back
//!   to a linear scan rather than trust a stale position;
//! - the integrity verifier ([`integrity`]): checksums over binary payloads.
//!
//! The properties tying writer and reader together — round trips, index
//! correctness, fallback equivalence, tolerance of unknown elements — are
//! stated and proved in [`laws`], [`decode`] and [`parser`]. The staging
//! state the embedding application drives sits in [`staging`].

use vstd::prelude::*;

pub mod case;
pub mod codec;
pub mod decode;
pub mod element;
pub mod integrity;
pub mod laws;
pub mod parser;
pub mod reader;
pub mod schema;
pub mod staging;
pub mod vint;

verus! {

} // verus!
