//! Conversion between lightweight markup dialects through one neutral
//! intermediate form.
//!
//! A per-dialect decoder turns source lines into a [`document::Document`] of
//! [`element::Element`] values; a per-dialect encoder renders the document
//! back out as dialect-native text.  Inline markup (emphasis, strikethrough,
//! code spans, links) is carried between the two in a marker-byte tag
//! protocol so that any decoder composes with any encoder.

pub mod chars;
pub mod document;
pub mod element;
pub mod laws;
pub mod tags;
pub mod w_conf;
pub mod w_doku;
pub mod w_md;
pub mod w_puki;
