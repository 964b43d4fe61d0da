//! Offset-stable patching of byte buffers.
//!
//! A patch file names a source and an ordered list of edits. Every edit
//! addresses the source by a *spot*: an offset into the source as it was before
//! any edit ran. The engine in [`patch`] keeps, beside the working buffer, a
//! record of which source offsets each position stands for, so that a spot
//! keeps its meaning however many edits ran before it.
//!
//! - [`models`] holds the data of a patch file.
//! - [`semantics`] defines, over sequences and sets, what the edits make of a
//!   source; [`laws`] states what follows from that definition.
//! - [`patch`] is the engine: [`patch::apply`] for edits whose bytes are at
//!   hand, [`patch::do_patch`] for a patch file whose sources are inline.
//! - [`decode`] reads a patch file out of a TOML document, held as a
//!   [`value::TomlValue`]; [`document`] gets the document from its text.
//! - [`fetch`] says what has to be read for a source that does not carry its
//!   bytes. The reading itself is left to the caller.
pub mod models;
pub mod semantics;
mod lemmas;
mod reorder;
mod weave;
pub mod patch;
pub mod laws;
pub mod text;
pub mod value;
pub mod decode;
pub mod document;
pub mod fetch;
