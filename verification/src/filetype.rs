//! The three file-type discriminants a resolved filesystem entry can have.

use vstd::prelude::*;

verus! {

/// The classification of a filesystem entry: a directory, a regular file or
/// a symbolic link.  The environment guarantees one of these three for any
/// resolved entry.
#[derive(Clone, Copy, Debug, PartialEq, Eq, Structural)]
pub enum FileTypeEnum {
    Dir,
    File,
    Symlink,
}

/// The name a file-type discriminant shows in failure descriptions.
pub open spec fn file_type_label(t: FileTypeEnum) -> Seq<char> {
    match t {
        FileTypeEnum::Dir => "Dir"@,
        FileTypeEnum::File => "File"@,
        FileTypeEnum::Symlink => "Symlink"@,
    }
}

impl FileTypeEnum {
    /// The discriminant's name, as failure descriptions show it.
    pub fn label(&self) -> (r: String)
        ensures
            r@ == file_type_label(*self),
    {
        match self {
            FileTypeEnum::Dir => String::from_str("Dir"),
            FileTypeEnum::File => String::from_str("File"),
            FileTypeEnum::Symlink => String::from_str("Symlink"),
        }
    }
}

} // verus!
