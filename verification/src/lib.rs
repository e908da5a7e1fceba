//! Build-time planning of interleaved vertex-buffer layouts.
//!
//! Given an ordered list of element descriptors, the library computes each
//! attribute's byte offset, the padding needed to satisfy every alignment
//! requirement, and the total per-vertex stride, and produces the attribute
//! description directives a graphics binding layer needs to declare the
//! layout.  The arithmetic is specified and proved here; issuing the native
//! driver calls is left to the embedding application.

pub mod attributes;
pub mod error;
pub mod raw;
