//! Type filters, and what the file system reports about a path.

use vstd::prelude::*;

verus! {

/// The type restriction of a search. Exactly one is active per run.
#[derive(Clone, Copy, Debug, PartialEq, Eq, Structural)]
pub enum FilterType {
    /// Any type of entry.
    Any,
    /// Regular files that are no links.
    Text,
    /// Symbolic links.
    Symlink,
    /// Character or block devices.
    Device,
    /// Directories.
    Folder,
}

impl Default for FilterType {
    /// No restriction.
    fn default() -> (filter: FilterType)
        ensures
            filter is Any,
    {
        FilterType::Any
    }
}

/// What stands at the end of a path once every link in it is followed.
#[derive(Clone, Copy, Debug, PartialEq, Eq, Structural)]
pub enum FileKind {
    Regular,
    Directory,
    CharDevice,
    BlockDevice,
    /// A socket, a pipe, or anything else.
    Other,
}

/// What was found out about one path.
#[derive(Debug, PartialEq, Eq)]
pub struct Facts {
    /// The path itself is a symbolic link.
    pub is_symlink: bool,
    /// The outcome of the metadata lookup that follows links: the kind of
    /// file it reached, or the reason it failed.
    pub target: Result<FileKind, String>,
}

impl Facts {
    /// The path leads to a regular file.
    pub open spec fn is_file(self) -> bool {
        self.target matches Ok(kind) && kind == FileKind::Regular
    }

    /// The path leads to a directory.
    pub open spec fn is_dir(self) -> bool {
        self.target matches Ok(kind) && kind == FileKind::Directory
    }

    /// The path leads to a character or block device.
    pub open spec fn is_device(self) -> bool {
        self.target matches Ok(kind) && (kind == FileKind::CharDevice || kind
            == FileKind::BlockDevice)
    }

    /// The entry's type satisfies `filter`. A link to a regular file is
    /// no regular file under `Text`; a link to a directory is a directory
    /// under `Folder`.
    pub open spec fn satisfies(self, filter: FilterType) -> bool {
        match filter {
            FilterType::Any => true,
            FilterType::Text => self.is_file() && !self.is_symlink,
            FilterType::Folder => self.is_dir(),
            FilterType::Symlink => self.is_symlink,
            FilterType::Device => self.is_device(),
        }
    }

    /// The walk goes on below this entry: it is a directory and no link.
    pub open spec fn descends(self) -> bool {
        self.is_dir() && !self.is_symlink
    }
}

/// Tells whether an entry's type satisfies the filter.
pub fn type_satisfies(filter: FilterType, facts: &Facts) -> (yes: bool)
    ensures
        yes == facts.satisfies(filter),
{
    match filter {
        FilterType::Any => true,
        FilterType::Text => match &facts.target {
            Ok(FileKind::Regular) => !facts.is_symlink,
            _ => false,
        },
        FilterType::Folder => match &facts.target {
            Ok(FileKind::Directory) => true,
            _ => false,
        },
        FilterType::Symlink => facts.is_symlink,
        FilterType::Device => match &facts.target {
            Ok(FileKind::CharDevice) => true,
            Ok(FileKind::BlockDevice) => true,
            _ => false,
        },
    }
}

/// Tells whether the walk goes on below an entry.
pub fn should_descend(facts: &Facts) -> (yes: bool)
    ensures
        yes == facts.descends(),
{
    let is_dir = match &facts.target {
        Ok(FileKind::Directory) => true,
        _ => false,
    };
    is_dir && !facts.is_symlink
}

} // verus!
