//! What a traversal finds and yields: entries, failures, and the hidden names.

use vstd::prelude::*;

verus! {

/// The identity of a file: two paths lead to the same file exactly when their
/// identities are equal.
#[derive(Clone, Copy, Debug, PartialEq, Eq, Structural)]
pub struct FileId {
    /// The device that holds the file.
    pub device: u64,
    /// The number of the file on that device.
    pub inode: u64,
}

/// A node of the file system as a traversal yields it.
#[derive(Clone, Debug, PartialEq, Eq)]
pub struct DirectoryEntry {
    /// The path by which the entry was reached.
    pub path: String,
    /// The number of directories between the root and the entry; the root has 0.
    pub depth: usize,
    /// Whether the traversal treats the entry as a directory.
    pub is_directory: bool,
    /// The last component of the path, where it is valid Unicode.
    pub file_name: Option<String>,
}

/// The mathematical content of a [`DirectoryEntry`].
pub struct EntryView {
    pub path: Seq<char>,
    pub depth: nat,
    pub is_directory: bool,
    pub file_name: Option<Seq<char>>,
}

/// An entry that could not be read, with the description of what went wrong.
#[derive(Clone, Debug, PartialEq, Eq)]
pub struct TraversalError {
    /// The description, which names the offending path.
    pub message: String,
}

/// One item of a traversal: an entry, or the failure that stands in its place.
#[derive(Clone, Debug, PartialEq, Eq)]
pub enum WalkItem {
    Entry(DirectoryEntry),
    Failure(TraversalError),
}

/// The mathematical content of a [`WalkItem`].
pub enum ItemView {
    Entry(EntryView),
    Failure(Seq<char>),
}

/// The text of an optional string.
pub open spec fn text_of(text: Option<String>) -> Option<Seq<char>> {
    match text {
        Some(s) => Some(s@),
        None => None,
    }
}

/// A name is hidden when it begins with a dot. A name that is not valid
/// Unicode is never hidden.
pub open spec fn hidden_name(name: Option<Seq<char>>) -> bool {
    match name {
        Some(s) => s.len() > 0 && s[0] == '.',
        None => false,
    }
}

/// The names `.` and `..` stand for a directory itself and for the one above
/// it; they are no names of entries.
pub open spec fn place_name(name: Option<Seq<char>>) -> bool {
    match name {
        Some(s) => (s.len() == 1 && s[0] == '.') || (s.len() == 2 && s[0] == '.' && s[1] == '.'),
        None => false,
    }
}

/// Whether an entry at a depth is passed over for its name: its name is
/// hidden, unless it is the root of the scan given as `.` or `..`, which names
/// a place and hides nothing.
pub open spec fn passed_over(name: Option<Seq<char>>, depth: nat) -> bool {
    hidden_name(name) && !(depth == 0 && place_name(name))
}

impl View for DirectoryEntry {
    type V = EntryView;

    open spec fn view(&self) -> EntryView {
        EntryView {
            path: self.path@,
            depth: self.depth as nat,
            is_directory: self.is_directory,
            file_name: text_of(self.file_name),
        }
    }
}

impl View for WalkItem {
    type V = ItemView;

    open spec fn view(&self) -> ItemView {
        match self {
            WalkItem::Entry(entry) => ItemView::Entry(entry@),
            WalkItem::Failure(error) => ItemView::Failure(error.message@),
        }
    }
}

/// Copies an optional string.
pub fn copy_text(text: &Option<String>) -> (copy: Option<String>)
    ensures
        copy == *text,
{
    match text {
        Some(s) => Some(s.clone()),
        None => None,
    }
}

/// Decides whether a name is hidden.
pub fn name_is_hidden(name: &Option<String>) -> (hidden: bool)
    ensures
        hidden == hidden_name(text_of(*name)),
{
    match name {
        Some(s) => {
            let text: &str = s.as_str();
            text.unicode_len() > 0 && text.get_char(0) == '.'
        },
        None => false,
    }
}

/// Decides whether a name is `.` or `..`.
pub fn name_is_place(name: &Option<String>) -> (place: bool)
    ensures
        place == place_name(text_of(*name)),
{
    match name {
        Some(s) => {
            let text: &str = s.as_str();
            let length: usize = text.unicode_len();
            (length == 1 && text.get_char(0) == '.') || (length == 2 && text.get_char(0) == '.'
                && text.get_char(1) == '.')
        },
        None => false,
    }
}

/// Decides whether an entry is passed over for its name.
pub fn is_passed_over(entry: &DirectoryEntry) -> (passed: bool)
    ensures
        passed == passed_over(entry@.file_name, entry@.depth),
{
    name_is_hidden(&entry.file_name) && !(entry.depth == 0 && name_is_place(&entry.file_name))
}

/// Decides whether an entry is hidden, which is to say whether its name is.
pub fn is_hidden(entry: &DirectoryEntry) -> (hidden: bool)
    ensures
        hidden == hidden_name(entry@.file_name),
{
    name_is_hidden(&entry.file_name)
}

} // verus!
