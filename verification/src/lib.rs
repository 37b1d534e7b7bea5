//! Discovery of images in a directory tree and their import in batches.
//!
//! The library holds the decisions of an import: which entries are images,
//! in which order a tree is walked, how the discovered images are cut into
//! batches, what each record and progress report says. Reading directories
//! and files, writing thumbnails and handing reports on are left to the
//! caller, who performs what a machine asks for and tells it what happened.

pub mod batch;
pub mod entry;
pub mod identifier;
pub mod import;
pub mod importer;
pub mod library;
pub mod order;
pub mod record;
pub mod scan;
pub mod summary;
pub mod text;
pub mod thumbnail;
pub mod tree;
pub mod units;
