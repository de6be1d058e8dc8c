//! An in-memory package graph built from a Debian-style status database.
//!
//! The input is a sequence of RFC822-like stanzas: runs of non-blank lines
//! separated by blank lines, with `Package:`, `Description:` and `Depends:`
//! fields. The library parses the stanzas, resolves dependency names --
//! including alternative groups and forward references to packages that never
//! get a stanza of their own -- into a single arena of nodes, and wires both
//! forward (`dependencies`) and backward (`reverse_dependencies`) edges.
//!
//! Reading the input file and presenting the finished graph are left to the
//! surrounding application; the library works on plain lines of text.

pub mod deps;
pub mod graph;
pub mod laws;
pub mod stanza;
pub mod text;
