//! The in-memory model of the scanned directory tree.
//!
//! The engine never touches the file system itself: the caller lists a
//! directory into an [`FsEntry`] value (names plus, for files, their text)
//! and every later decision is a pure function of that value.

use vstd::prelude::*;

verus! {

/// What was read from one file: its text, or a marker that the bytes were
/// not valid text (or could not be read at all).
#[derive(Debug)]
pub enum FileContent {
    Text(String),
    Unreadable,
}

/// One directory entry: a file with its content, or a directory with its
/// children. Sibling order in `children` carries no meaning for prompt
/// generation — the walker sorts every visible sibling list itself.
#[derive(Debug)]
pub enum FsEntry {
    File { fname: String, content: FileContent },
    Dir { dname: String, children: Vec<FsEntry> },
}

/// The entry's own name.
pub open spec fn name_of(e: FsEntry) -> Seq<char> {
    match e {
        FsEntry::File { fname, .. } => fname@,
        FsEntry::Dir { dname, .. } => dname@,
    }
}

/// The abstract content of a file: `Some` text, or `None` for unreadable.
pub open spec fn content_view(c: FileContent) -> Option<Seq<char>> {
    match c {
        FileContent::Text(s) => Some(s@),
        FileContent::Unreadable => None,
    }
}

/// One visible file the walker discovered: its path relative to the scan
/// root, and its content.
#[derive(Debug)]
pub struct FileRecord {
    pub path: String,
    pub content: FileContent,
}

impl View for FileRecord {
    type V = (Seq<char>, Option<Seq<char>>);

    open spec fn view(&self) -> (Seq<char>, Option<Seq<char>>) {
        (self.path@, content_view(self.content))
    }
}

/// The abstract values of a list of file records.
pub open spec fn rec_views(s: Seq<FileRecord>) -> Seq<(Seq<char>, Option<Seq<char>>)> {
    s.map_values(|r: FileRecord| r@)
}

impl FileContent {
    /// A copy with the same abstract content.
    pub fn dup(&self) -> (r: FileContent)
        ensures
            content_view(r) == content_view(*self),
    {
        match self {
            FileContent::Text(s) => FileContent::Text(s.clone()),
            FileContent::Unreadable => FileContent::Unreadable,
        }
    }
}

impl FsEntry {
    /// The entry's name, as the walker and the collector read it.
    pub fn name(&self) -> (n: &String)
        ensures
            n@ == name_of(*self),
    {
        match self {
            FsEntry::File { fname, .. } => fname,
            FsEntry::Dir { dname, .. } => dname,
        }
    }

    /// Whether the entry is a directory.
    pub fn is_dir(&self) -> (r: bool)
        ensures
            r == (*self is Dir),
    {
        match self {
            FsEntry::Dir { .. } => true,
            FsEntry::File { .. } => false,
        }
    }
}

} // verus!
