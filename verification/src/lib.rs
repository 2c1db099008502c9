//! Inspect and mutate the per-track "default" and "forced" flags of an
//! MP4-family container, modelled as an in-memory byte sequence.
//!
//! The library parses the box (atom) hierarchy (`moov` → `trak` → `mdia` →
//! `minf` → `stbl`), decodes the leaf boxes `tkhd`, `mdhd`, `hdlr` and `stsd`
//! into [`track::Track`] records, and patches single fields in place without
//! disturbing the surrounding layout. File I/O and command dispatch live
//! outside the library; every function here is specified and verified over
//! the byte sequence it is given.

pub mod bytes;
pub mod laws;
pub mod roundtrip;
pub mod parse;
pub mod patch;
pub mod track;
