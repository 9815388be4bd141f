//! A verified core for a directory-backed note store.
//!
//! A note is a titled piece of plain text kept in one file, named
//! `{title}.txt`, under a single notes directory.  This crate holds the
//! store's logic: trimming and validation of titles and contents, the
//! file-name convention, the capped enumeration of note titles, and the
//! create / read / delete transitions with their typed errors.  All of it
//! is specified and proved with Verus.
//!
//! The store itself is a state machine over the directory's contents; the
//! [`store::NoteStore`] type carries that state and its verified
//! transitions.  A presentation layer that keeps the notes on disk makes
//! the same decisions by calling the free functions of [`store`] and
//! [`text`] and performing the file operations itself.

pub mod laws;
pub mod store;
pub mod text;
