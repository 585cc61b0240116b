//! A directory tree as a value.

use vstd::prelude::*;

verus! {

/// One line of a file.
#[derive(Debug, PartialEq, Eq)]
pub enum Line {
    /// A line that was decoded as text, without its line ending.
    Text(String),
    /// A line whose bytes are no valid text.
    Invalid,
}

/// A regular file.
#[derive(Debug, PartialEq, Eq)]
pub struct File {
    /// Where the file is, as it is shown in reports.
    pub path: String,
    /// The last component of the path.
    pub name: String,
    /// The lines of the file, or `None` if the file was not opened.
    pub lines: Option<Vec<Line>>,
}

/// A directory with its listing.
#[derive(Debug, PartialEq, Eq)]
pub struct Directory {
    /// Where the directory is, as it is shown in reports.
    pub path: String,
    /// The entries in the order in which they are visited.
    pub entries: Vec<Entry>,
}

/// One entry of a directory's listing.
#[derive(Debug, PartialEq, Eq)]
pub enum Entry {
    /// An entry that could not be obtained, with the reason.
    Unreadable(String),
    /// A subdirectory.
    Directory(Directory),
    /// A regular file.
    File(File),
    /// An entry that is neither a directory nor a regular file, with its path.
    Other(String),
}

/// A file as the contracts see it. A line is its text, or `None` where it is
/// no valid text.
pub struct FileView {
    pub path: Seq<char>,
    pub name: Seq<char>,
    pub lines: Option<Seq<Option<Seq<char>>>>,
}

/// A directory as the contracts see it.
pub struct DirectoryView {
    pub path: Seq<char>,
    pub entries: Seq<EntryView>,
}

/// An entry as the contracts see it.
pub enum EntryView {
    Unreadable(Seq<char>),
    Directory(DirectoryView),
    File(FileView),
    Other(Seq<char>),
}

impl View for Line {
    type V = Option<Seq<char>>;

    open spec fn view(&self) -> Option<Seq<char>> {
        match self {
            Line::Text(text) => Some(text@),
            Line::Invalid => None,
        }
    }
}

/// The lines as the contracts see them.
pub open spec fn lines_view(lines: Seq<Line>) -> Seq<Option<Seq<char>>> {
    lines.map_values(|line: Line| line@)
}

impl View for File {
    type V = FileView;

    open spec fn view(&self) -> FileView {
        FileView {
            path: self.path@,
            name: self.name@,
            lines: match self.lines {
                Some(lines) => Some(lines_view(lines@)),
                None => None,
            },
        }
    }
}

/// The entry as the contracts see it.
pub open spec fn entry_view(entry: Entry) -> EntryView
    decreases entry,
{
    match entry {
        Entry::Unreadable(reason) => EntryView::Unreadable(reason@),
        Entry::Directory(dir) => EntryView::Directory(
            DirectoryView { path: dir.path@, entries: entries_view(dir.entries@) },
        ),
        Entry::File(file) => EntryView::File(file@),
        Entry::Other(path) => EntryView::Other(path@),
    }
}

/// The entries as the contracts see them.
pub open spec fn entries_view(entries: Seq<Entry>) -> Seq<EntryView>
    decreases entries,
{
    if entries.len() == 0 {
        Seq::empty()
    } else {
        entries_view(entries.drop_last()).push(entry_view(entries.last()))
    }
}

impl View for Entry {
    type V = EntryView;

    open spec fn view(&self) -> EntryView {
        entry_view(*self)
    }
}

impl View for Directory {
    type V = DirectoryView;

    open spec fn view(&self) -> DirectoryView {
        DirectoryView { path: self.path@, entries: entries_view(self.entries@) }
    }
}

/// The view of a listing has the view of each entry in its place.
pub proof fn lemma_entries_view(entries: Seq<Entry>)
    ensures
        entries_view(entries).len() == entries.len(),
        forall|i: int|
            0 <= i < entries.len() ==> entries_view(entries)[i] == #[trigger] entries[i]@,
    decreases entries.len(),
{
    if entries.len() > 0 {
        let rest = entries.drop_last();
        lemma_entries_view(rest);
        assert forall|i: int| 0 <= i < entries.len() implies entries_view(entries)[i]
            == #[trigger] entries[i]@ by {
            if i < rest.len() {
                assert(entries[i] == rest[i]);
            }
        }
    }
}

/// The extension of a file name: what follows its last dot. A name without a
/// dot has none.
pub open spec fn extension_of(name: Seq<char>) -> Option<Seq<char>> {
    match name.index_of_last('.') {
        Some(i) => Some(name.subrange(i + 1, name.len() as int)),
        None => None,
    }
}

impl File {
    /// The extension of the file's name, if it has one.
    pub fn extension(&self) -> (r: Option<String>)
        ensures
            match r {
                Some(e) => extension_of(self@.name) == Some(e@),
                None => extension_of(self@.name) is None,
            },
    {
        let name = self.name.as_str();
        let len: usize = name.unicode_len();
        let mut dot: Option<usize> = None;
        let mut i: usize = 0;
        for c in it: name.chars()
            invariant
                it.seq() == name@,
                len == name@.len(),
                i == it.index(),
                dot is None ==> forall|k: int| 0 <= k < i ==> name@[k] != '.',
                dot matches Some(d) ==> {
                    &&& d < i
                    &&& name@[d as int] == '.'
                    &&& forall|k: int| d < k < i ==> name@[k] != '.'
                },
        {
            if c == '.' {
                dot = Some(i);
            }
            i = i + 1;
        }
        proof {
            name@.index_of_last_ensures('.');
        }
        match dot {
            None => None,
            Some(d) => Some(name.substring_char(d + 1, len).to_owned()),
        }
    }
}

/// Whether a file named `name` is counted when `accepted` are the extensions asked for.
pub open spec fn selected(name: Seq<char>, accepted: Set<Seq<char>>) -> bool {
    extension_of(name) matches Some(e) && accepted.contains(e)
}

} // verus!
