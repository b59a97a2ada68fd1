//! The table store: where a table is kept, and the length-prefixed byte
//! layout in which it is kept there.

use crate::engine::table::Table;
use vstd::prelude::*;
use vstd::string::StringExecFns;

pub mod flush;
pub mod inverse;
pub mod load;

verus! {

/// The store of tables under one directory, one file per table.
pub struct Storage {
    pub storage_dir: String,
}

/// The path of the file that holds the table `table_name` under `storage_dir`.
pub open spec fn table_storage_path(storage_dir: Seq<char>, table_name: Seq<char>) -> Seq<char> {
    storage_dir + "/"@ + table_name + "."@ + "ubdb"@
}

impl Storage {
    /// The extension of every table file.
    pub const STORAGE_FILE_EXT: &'static str = "ubdb";

    /// The store under the directory `storage_path`.
    pub fn new(storage_path: String) -> (s: Self)
        ensures
            s.storage_dir == storage_path,
    {
        Self { storage_dir: storage_path }
    }

    /// The path of the file that holds the table `table_name`: the directory,
    /// a slash, the name, a dot and the extension.
    pub fn get_table_storage_path(&self, table_name: &str) -> (path: String)
        ensures
            path@ == table_storage_path(self.storage_dir@, table_name@),
    {
        let mut path = self.storage_dir.clone();
        path.append("/");
        path.append(table_name);
        path.append(".");
        path.append(Self::STORAGE_FILE_EXT);
        path
    }

    /// What is to be written for `table`, and where: the path of its file
    /// and the bytes that the file is to hold, in place of what it held.
    pub fn prepare(&self, table: &Table) -> (file: (String, Vec<u8>))
        requires
            table@.well_formed(),
        ensures
            file.0@ == table_storage_path(self.storage_dir@, table@.name),
            file.1@ == flush::table_bytes(table@),
    {
        let path = self.get_table_storage_path(table.name.as_str());
        let bytes = Self::table_to_bytes(table);
        (path, bytes)
    }
}

} // verus!
