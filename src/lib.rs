//! Reading and rewriting the atom ("box") structure of MOV / MP4 files:
//! locating the movie atom, modelling its metadata as typed tags grouped by
//! owning atom, and encoding that model back into a parseable atom stream.

pub mod atom;
pub mod bytes;
pub mod fourcc;
pub mod metadata;
pub mod tag;
