//! The options of a store of tables.

use crate::columnar::compression::CompressionType;
use vstd::prelude::*;

verus! {

/// The options of a store.
#[derive(Debug)]
pub struct StorageOptions {
    /// The directory that holds the tables.
    pub base_dir: String,
    /// The compression of new columns.
    pub compression: CompressionType,
    /// Whether missing directories are made.
    pub create_dirs: bool,
    /// Whether files are read through mappings.
    pub use_mmap: bool,
}

impl Clone for StorageOptions {
    fn clone(&self) -> (r: StorageOptions)
        ensures
            r == *self,
    {
        StorageOptions {
            base_dir: self.base_dir.clone(),
            compression: self.compression,
            create_dirs: self.create_dirs,
            use_mmap: self.use_mmap,
        }
    }
}

impl Default for StorageOptions {
    /// The options of a store in the directory `db`, without compression,
    /// that makes its directories and maps its files.
    fn default() -> (r: StorageOptions)
        ensures
            r.base_dir@ == "db"@,
            r.compression == CompressionType::Uncompressed,
            r.create_dirs,
            r.use_mmap,
    {
        StorageOptions {
            base_dir: "db".to_owned(),
            compression: CompressionType::Uncompressed,
            create_dirs: true,
            use_mmap: true,
        }
    }
}

/// A store of tables: one directory for each table under a base
/// directory.
#[derive(Debug)]
pub struct Storage {
    options: StorageOptions,
}

impl Storage {
    /// The options of the store.
    pub closed spec fn spec_options(&self) -> StorageOptions {
        self.options
    }

    /// A store with the given options.
    pub fn new(options: StorageOptions) -> (r: Storage)
        ensures
            r.spec_options() == options,
    {
        Storage { options }
    }

    /// The options of the store.
    pub fn options(&self) -> (r: &StorageOptions)
        ensures
            *r == self.spec_options(),
    {
        &self.options
    }

    /// Whether the base directory is to be made before the store is used:
    /// where the options ask for it and the directory is missing.
    pub fn must_create_base_dir(&self, base_dir_present: bool) -> (r: bool)
        ensures
            r == (self.spec_options().create_dirs && !base_dir_present),
    {
        self.options.create_dirs && !base_dir_present
    }
}

} // verus!
