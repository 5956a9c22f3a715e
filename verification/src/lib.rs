//! A minimal embedded row store.
//!
//! Rows of a fixed schema are framed with delimiter sentinels into one flat
//! byte image, optionally accelerated by a primary index from row id to byte
//! offset that is mirrored into an image of fixed-width records.  The library
//! works on the byte images; whoever owns the files reads them in and writes
//! them back.
//!
//! * `bytes`, `datatypes`: the field codec.
//! * `framing`: the layout of the row image and its reader and writer.
//! * `index`: the primary index and its image.
//! * `table`: the row file, the table and the capability that a row type
//!   offers to them.
//! * `laws`: what holds of a table across its operations.
//! * `rows`, `schemas`, `db`: the row types and tables of the song catalogue.
//! * `number`, `view`: the catalogue's command shell.

pub mod bytes;
pub mod datatypes;
pub mod db;
pub mod error;
pub mod framing;
pub mod index;
pub mod laws;
pub mod number;
pub mod rows;
pub mod schemas;
pub mod table;
pub mod view;
