//! Metadata of a filesystem entry, paired with the path it came from.
//!
//! [`PathMetadata`] holds what the library's rules read of a native metadata
//! value — the file-type discriminant and the length — together with the
//! originating path, so failures can name that path.

use vstd::prelude::*;

use crate::error::PathError;
use crate::filetype::FileTypeEnum;
use crate::filetype::file_type_label;
use crate::pathtext::PathText;

verus! {

/// Metadata of a filesystem entry together with the path that produced it.
#[derive(Debug)]
pub struct PathMetadata {
    pub path: PathText,
    pub file_type: FileTypeEnum,
    pub size: u64,
}

/// The description of a file-type mismatch: the discriminant found and the
/// one expected, by name.
pub open spec fn mismatch_description(found: FileTypeEnum, expected: FileTypeEnum) -> Seq<char> {
    "found "@ + file_type_label(found) + ", expected "@ + file_type_label(expected)
}

impl PathMetadata {
    /// Metadata read for `path`: the entry's discriminant and length.
    pub fn new(path: PathText, file_type: FileTypeEnum, size: u64) -> (r: Self)
        ensures
            r.path@ == path@,
            r.file_type == file_type,
            r.size == size,
    {
        PathMetadata { path, file_type, size }
    }

    /// The path the metadata was read for.
    pub fn path(&self) -> (r: &PathText)
        ensures
            r@ == self.path@,
    {
        &self.path
    }

    /// The entry's file-type discriminant.
    pub fn file_type(&self) -> (r: FileTypeEnum)
        ensures
            r == self.file_type,
    {
        self.file_type
    }

    /// Whether the entry is a directory.
    pub fn is_dir(&self) -> (r: bool)
        ensures
            r == (self.file_type == FileTypeEnum::Dir),
    {
        self.file_type == FileTypeEnum::Dir
    }

    /// Whether the entry is a regular file.
    pub fn is_file(&self) -> (r: bool)
        ensures
            r == (self.file_type == FileTypeEnum::File),
    {
        self.file_type == FileTypeEnum::File
    }

    /// Whether the entry is a symbolic link.
    pub fn is_symlink(&self) -> (r: bool)
        ensures
            r == (self.file_type == FileTypeEnum::Symlink),
    {
        self.file_type == FileTypeEnum::Symlink
    }

    /// The entry's length in bytes.
    pub fn len(&self) -> (r: u64)
        ensures
            r == self.size,
    {
        self.size
    }

    /// Whether the entry has length 0.
    pub fn is_empty(&self) -> (r: bool)
        ensures
            r == (self.size == 0),
    {
        self.size == 0
    }

    /// Nothing when the entry has the expected file-type discriminant, else
    /// a failure naming both the discriminant found and the one expected.
    pub fn require_file_type(&self, expected: FileTypeEnum) -> (r: Result<(), PathError>)
        ensures
            match r {
                Ok(_) => self.file_type == expected,
                Err(e) => {
                    &&& self.file_type != expected
                    &&& e.description@ == mismatch_description(self.file_type, expected)
                    &&& e.annotations@.len() == 0
                },
            },
    {
        if self.file_type == expected {
            Ok(())
        } else {
            let mut d = String::from_str("found ");
            d.append(self.file_type.label().as_str());
            d.append(", expected ");
            d.append(expected.label().as_str());
            Err(PathError::new(d))
        }
    }
}

} // verus!
