//! Reading and writing of mount tables ("fstab") in three dialects: that
//! of Linux and two of Android.
//!
//! The library works on text. It tells the dialect of a table from the
//! table's text, reads the entries of each line, and writes entries as the
//! text of a table. Opening, reading and storing files is left to the
//! caller.

pub mod android_v1;
pub mod android_v2;
pub mod detect;
pub mod error;
pub mod lines;
pub mod linux;
pub mod number;
pub mod table;
pub mod text;

pub use crate::android_v1::AndroidV1FsEntry;
pub use crate::android_v2::AndroidV2FsEntry;
pub use crate::detect::{detect, Dialect};
pub use crate::error::FstabError;
pub use crate::linux::LinuxFsEntry;
pub use crate::number::IntegerFault;
pub use crate::table::{FsTab, FstabType};
