//! Verified core of a USB flashing tool: the SCSI Bulk-Only Transport
//! protocol, adaptive transfer sizing, FAT32/GPT layout, UDF and WIM parsing,
//! and the decisions of the flashing pipeline.

pub mod bytes;
pub mod error;
pub mod cbw;
pub mod text;
pub mod csw;
pub mod scsi;
pub mod config;
pub mod native;
pub mod mass_storage;
pub mod fat_format;
pub mod disk;
pub mod gpt;
pub mod fat_entries;
pub mod fat_writer;
pub mod fat_file;
pub mod udf;
pub mod wim;
pub mod iso;
pub mod linux;
pub mod flash;
pub mod windows;
pub mod jni;
pub mod async_plan;
