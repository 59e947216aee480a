//! An incremental, resumable, optionally encrypted snapshot backup engine.
//!
//! The library holds the logic: the change-set model and its parser, the
//! optimizer, the byte layout of the upload stream, the chunked cipher
//! geometry, the hot-metadata codec, key handling and the step machine of a
//! backup run. Reading files, talking to the object store and the command line
//! live outside of it.

pub mod config;
pub mod bytes;
pub mod varint;
pub mod diff_entry;
pub mod zfs_diff;
pub mod diff_prepare;
pub mod optimize;
pub mod record;
pub mod upload_stream;
pub mod crypto;
pub mod keys;
pub mod naming;
pub mod geometry;
pub mod cipher;
pub mod backup_steps;
pub mod hot_data;
pub mod settings;
