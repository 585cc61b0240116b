//! What a directory tree adds up to.

use crate::count::plus;
use crate::text::trimmed;
use crate::tree::{selected, EntryView, FileView};
use vstd::prelude::*;

verus! {

/// What one line contributes: nothing if it is blank or no valid text, else
/// one line and as many characters as it keeps when trimmed.
pub open spec fn line_totals(line: Option<Seq<char>>) -> (nat, nat) {
    match line {
        Some(text) => {
            let n = trimmed(text).len();
            if n == 0 {
                (0, 0)
            } else {
                (1, n)
            }
        },
        None => (0, 0),
    }
}

/// The non-blank lines among `lines` and the characters they keep when trimmed.
pub open spec fn lines_totals(lines: Seq<Option<Seq<char>>>) -> (nat, nat)
    decreases lines.len(),
{
    if lines.len() == 0 {
        (0, 0)
    } else {
        plus(lines_totals(lines.drop_last()), line_totals(lines.last()))
    }
}

/// What reading a file yields: the totals of its lines, or nothing if it was not opened.
pub open spec fn file_totals(file: FileView) -> (nat, nat) {
    match file.lines {
        Some(lines) => lines_totals(lines),
        None => (0, 0),
    }
}

/// What one entry contributes to the totals of its directory.
pub open spec fn entry_totals(entry: EntryView, accepted: Set<Seq<char>>) -> (nat, nat)
    decreases entry,
{
    match entry {
        EntryView::Directory(dir) => totals_in(dir.entries, accepted),
        EntryView::File(file) => if selected(file.name, accepted) {
            file_totals(file)
        } else {
            (0, 0)
        },
        EntryView::Unreadable(_) => (0, 0),
        EntryView::Other(_) => (0, 0),
    }
}

/// The totals over all files under `entries`, at any depth, whose extension is in `accepted`.
pub open spec fn totals_in(entries: Seq<EntryView>, accepted: Set<Seq<char>>) -> (nat, nat)
    decreases entries,
{
    if entries.len() == 0 {
        (0, 0)
    } else {
        plus(totals_in(entries.drop_last(), accepted), entry_totals(entries.last(), accepted))
    }
}

/// The regular files under `entries`, at any depth, in the order of the walk.
pub open spec fn files_in(entries: Seq<EntryView>) -> Seq<FileView>
    decreases entries,
{
    if entries.len() == 0 {
        Seq::empty()
    } else {
        files_in(entries.drop_last()) + match entries.last() {
            EntryView::Directory(dir) => files_in(dir.entries),
            EntryView::File(file) => seq![file],
            EntryView::Unreadable(_) => Seq::empty(),
            EntryView::Other(_) => Seq::empty(),
        }
    }
}

/// The sum of the totals of those of `files` whose extension is in `accepted`.
pub open spec fn files_totals(files: Seq<FileView>, accepted: Set<Seq<char>>) -> (nat, nat)
    decreases files.len(),
{
    if files.len() == 0 {
        (0, 0)
    } else {
        plus(
            files_totals(files.drop_last(), accepted),
            if selected(files.last().name, accepted) {
                file_totals(files.last())
            } else {
                (0, 0)
            },
        )
    }
}

} // verus!
