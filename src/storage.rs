//! A store of catalog records as files in one directory.

use vstd::prelude::*;

verus! {

/// Catalog records kept as one JSON file each in a directory.
pub struct FileStorage {
    dir: String,
}

impl FileStorage {
    pub closed spec fn dir_spec(&self) -> Seq<char> {
        self.dir@
    }

    pub fn new(dir: &str) -> (r: FileStorage)
        ensures
            r.dir_spec() == dir@,
    {
        FileStorage { dir: String::from_str(dir) }
    }

    pub fn dir(&self) -> (r: &str)
        ensures
            r@ == self.dir_spec(),
    {
        self.dir.as_str()
    }
}

} // verus!
