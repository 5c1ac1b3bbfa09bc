//! The browser-facing view of a file listing: plain records the host can
//! hand over its boundary, built from the service's typed response.

#![allow(non_snake_case)]

use vstd::prelude::*;

use crate::service::FileKind;
use crate::service::ListFilesResponse;

verus! {

/// One listed file, flattened for the host: its path and two kind flags.
#[derive(Debug)]
pub struct File {
    path: String,
    is_regular: bool,
    is_directory: bool,
}

/// A listing of files.
#[derive(Clone, Debug)]
pub struct FileListing {
    files: Vec<File>,
}

impl Clone for File {
    /// A clone describes the same entry.
    fn clone(&self) -> (r: Self)
        ensures
            r.spec_path() == self.spec_path(),
            r.spec_is_regular() == self.spec_is_regular(),
            r.spec_is_directory() == self.spec_is_directory(),
    {
        File {
            path: self.path.clone(),
            is_regular: self.is_regular,
            is_directory: self.is_directory,
        }
    }
}

impl File {
    /// The entry's path.
    pub fn path(&self) -> (r: String)
        ensures
            r@ == self.spec_path(),
    {
        self.path.clone()
    }

    /// Whether the entry is an ordinary file.
    pub fn isRegular(&self) -> (r: bool)
        ensures
            r == self.spec_is_regular(),
    {
        self.is_regular
    }

    /// Whether the entry is a directory.
    pub fn isDirectory(&self) -> (r: bool)
        ensures
            r == self.spec_is_directory(),
    {
        self.is_directory
    }

    /// The entry's path.
    pub closed spec fn spec_path(self) -> Seq<char> {
        self.path@
    }

    /// Whether the entry is an ordinary file.
    pub closed spec fn spec_is_regular(self) -> bool {
        self.is_regular
    }

    /// Whether the entry is a directory.
    pub closed spec fn spec_is_directory(self) -> bool {
        self.is_directory
    }
}

impl FileListing {
    /// The files listed.
    pub closed spec fn view(self) -> Seq<File> {
        self.files@
    }

    /// How many files were listed.
    pub fn fileLength(&self) -> (n: usize)
        ensures
            n == self@.len(),
    {
        self.files.len()
    }

    /// The file at the given position.
    pub fn file(&self, index: usize) -> (r: File)
        requires
            index < self@.len(),
        ensures
            r.spec_path() == self@[index as int].spec_path(),
            r.spec_is_regular() == self@[index as int].spec_is_regular(),
            r.spec_is_directory() == self@[index as int].spec_is_directory(),
    {
        self.files[index].clone()
    }

    /// Flattens a listing response: one record per listed entry, in
    /// order, the regular flag set exactly for regular entries and the
    /// directory flag exactly for directories.
    pub fn of_response(r: &ListFilesResponse) -> (listing: FileListing)
        ensures
            listing@.len() == r.file@.len(),
            forall|i: int|
                0 <= i < r.file@.len() ==> {
                    &&& (#[trigger] listing@[i]).spec_path() == r.file@[i].path@
                    &&& listing@[i].spec_is_regular() == (r.file@[i].kind == Some(
                        FileKind::Regular,
                    ))
                    &&& listing@[i].spec_is_directory() == (r.file@[i].kind == Some(
                        FileKind::Directory,
                    ))
                },
    {
        let mut files: Vec<File> = Vec::new();
        let mut i: usize = 0;
        while i < r.file.len()
            invariant
                i <= r.file@.len(),
                files@.len() == i,
                forall|j: int|
                    0 <= j < i ==> {
                        &&& (#[trigger] files@[j]).spec_path() == r.file@[j].path@
                        &&& files@[j].spec_is_regular() == (r.file@[j].kind == Some(
                            FileKind::Regular,
                        ))
                        &&& files@[j].spec_is_directory() == (r.file@[j].kind == Some(
                            FileKind::Directory,
                        ))
                    },
            decreases r.file@.len() - i,
        {
            let entry = &r.file[i];
            let is_regular = match entry.kind {
                Some(FileKind::Regular) => true,
                _ => false,
            };
            let is_directory = match entry.kind {
                Some(FileKind::Directory) => true,
                _ => false,
            };
            files.push(File { path: entry.path.clone(), is_regular, is_directory });
            i = i + 1;
        }
        FileListing { files }
    }
}

} // verus!
