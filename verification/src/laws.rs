//! What holds of the totals, whatever the tree.

use crate::count::plus;
use crate::report::{
    directory_reports, entry_reports, is_progress, listing_reports, no_progress, parse_only,
    parse_reports, report_if, ReportView,
};
use crate::text::{
    is_blank, is_whitespace, lemma_trim_end, lemma_trim_start, lemma_trimmed_blank, trim_start,
    trimmed,
};
use crate::totals::{
    entry_totals, file_totals, files_in, files_totals, line_totals, lines_totals, totals_in,
};
use crate::tree::{extension_of, selected, DirectoryView, EntryView, FileView};
use vstd::prelude::*;

verus! {

/// Trimming cuts whitespace and nothing else: what is kept is the part of
/// the line between a prefix and a suffix that are both blank, and unless it
/// is empty it neither starts nor ends with whitespace. The characters that
/// a line contributes are the kept ones, not the cut ones.
pub proof fn lemma_trimmed_part(s: Seq<char>) -> (bounds: (int, int))
    ensures
        0 <= bounds.0 <= bounds.1 <= s.len(),
        trimmed(s) == s.subrange(bounds.0, bounds.1),
        is_blank(s.take(bounds.0)),
        is_blank(s.skip(bounds.1)),
        bounds.0 < bounds.1 ==> !is_whitespace(s[bounds.0]) && !is_whitespace(s[bounds.1 - 1]),
        trimmed(s).len() == s.len() - bounds.0 - (s.len() - bounds.1),
{
    lemma_trim_start(s);
    let t = trim_start(s);
    lemma_trim_end(t);
    let i = s.len() - t.len();
    let j = i + trimmed(s).len();
    assert(trimmed(s) == s.subrange(i, j));
    assert(s.skip(j) == t.skip(trimmed(s).len() as int));
    (i, j)
}

/// A name with a dot is what stands before its last dot, the dot, and the
/// extension, which holds no dot; a name without a dot has no extension.
pub proof fn lemma_extension(name: Seq<char>)
    ensures
        match extension_of(name) {
            Some(extension) => {
                &&& !extension.contains('.')
                &&& exists|stem: Seq<char>| name == stem + seq!['.'] + extension
            },
            None => !name.contains('.'),
        },
{
    name.index_of_last_ensures('.');
    if let Some(i) = name.index_of_last('.') {
        let extension = name.subrange(i + 1, name.len() as int);
        if extension.contains('.') {
            let k = extension.index_of('.');
            assert(name[i + 1 + k] == '.');
        }
        assert(name == name.take(i) + seq!['.'] + extension);
    }
}

/// Lines that are all blank, or no valid text, have nothing to count.
pub proof fn lemma_blank_lines(lines: Seq<Option<Seq<char>>>)
    requires
        forall|i: int|
            0 <= i < lines.len() ==> (#[trigger] lines[i] matches Some(text) ==> is_blank(text)),
    ensures
        lines_totals(lines) == (0nat, 0nat),
    decreases lines.len(),
{
    if lines.len() > 0 {
        lemma_blank_lines(lines.drop_last());
        if let Some(text) = lines.last() {
            lemma_trimmed_blank(text);
        }
    }
}

/// A file that holds nothing but blank lines yields no line and no character.
pub proof fn lemma_blank_file(file: FileView)
    requires
        file.lines matches Some(lines) && forall|i: int|
            0 <= i < lines.len() ==> (#[trigger] lines[i] matches Some(text) && is_blank(text)),
    ensures
        file_totals(file) == (0nat, 0nat),
{
    lemma_blank_lines(file.lines->0);
}

/// A line that is not blank counts as one line, with the characters that it
/// keeps when trimmed; a blank line and a line that is no valid text count nothing.
pub proof fn lemma_line(line: Option<Seq<char>>)
    ensures
        line_totals(line) == match line {
            Some(text) => if is_blank(text) {
                (0nat, 0nat)
            } else {
                (1nat, trimmed(text).len())
            },
            None => (0nat, 0nat),
        },
{
    if let Some(text) = line {
        lemma_trimmed_blank(text);
    }
}

/// The totals of two listings, one after the other, are the sums of their totals.
pub proof fn lemma_totals_concat(a: Seq<EntryView>, b: Seq<EntryView>, accepted: Set<Seq<char>>)
    ensures
        totals_in(a + b, accepted) == plus(totals_in(a, accepted), totals_in(b, accepted)),
    decreases b.len(),
{
    if b.len() == 0 {
        assert(a + b == a);
    } else {
        assert((a + b).drop_last() == a + b.drop_last());
        lemma_totals_concat(a, b.drop_last(), accepted);
    }
}

/// The sum over two lists of files, one after the other, is the sum of their sums.
pub proof fn lemma_files_concat(a: Seq<FileView>, b: Seq<FileView>, accepted: Set<Seq<char>>)
    ensures
        files_totals(a + b, accepted) == plus(files_totals(a, accepted), files_totals(b, accepted)),
    decreases b.len(),
{
    if b.len() == 0 {
        assert(a + b == a);
    } else {
        assert((a + b).drop_last() == a + b.drop_last());
        lemma_files_concat(a, b.drop_last(), accepted);
    }
}

/// The totals of a tree are the sum, over all its files whose extension is
/// asked for, of the lines and characters of each file. Directories,
/// unreadable entries and entries of unknown type add nothing of their own.
pub proof fn lemma_totals_over_files(entries: Seq<EntryView>, accepted: Set<Seq<char>>)
    ensures
        totals_in(entries, accepted) == files_totals(files_in(entries), accepted),
    decreases entries,
{
    if entries.len() > 0 {
        let rest = entries.drop_last();
        let last = entries.last();
        lemma_totals_over_files(rest, accepted);
        match last {
            EntryView::Directory(dir) => {
                lemma_totals_over_files(dir.entries, accepted);
                lemma_files_concat(files_in(rest), files_in(dir.entries), accepted);
                assert(entry_totals(last, accepted) == totals_in(dir.entries, accepted));
            },
            EntryView::File(file) => {
                let one = seq![file];
                assert(files_totals(one.drop_last(), accepted) == (0nat, 0nat));
                assert(files_totals(one, accepted) == entry_totals(last, accepted));
                lemma_files_concat(files_in(rest), one, accepted);
            },
            _ => {
                assert(files_in(entries) == files_in(rest));
                assert(entry_totals(last, accepted) == (0nat, 0nat));
            },
        }
    }
}

/// The totals of a listing are what one entry contributes and the totals of
/// the others: no entry bears on what another one counts.
pub proof fn lemma_totals_remove(entries: Seq<EntryView>, i: int, accepted: Set<Seq<char>>)
    requires
        0 <= i < entries.len(),
    ensures
        totals_in(entries, accepted) == plus(
            totals_in(entries.remove(i), accepted),
            entry_totals(entries[i], accepted),
        ),
{
    let before = entries.take(i);
    let here = seq![entries[i]];
    let after = entries.skip(i + 1);
    assert(entries == before + here + after);
    assert(entries.remove(i) == before + after);
    lemma_totals_concat(before + here, after, accepted);
    lemma_totals_concat(before, here, accepted);
    lemma_totals_concat(before, after, accepted);
    assert(totals_in(here.drop_last(), accepted) == (0nat, 0nat));
    assert(totals_in(here, accepted) == entry_totals(entries[i], accepted));
}

/// A file without an extension, or with one that is not asked for, bears on
/// no count: the totals are those of the listing without it, for the
/// extensions asked for together and for each of them by itself.
pub proof fn lemma_unselected_file(entries: Seq<EntryView>, i: int, accepted: Set<Seq<char>>)
    requires
        0 <= i < entries.len(),
        entries[i] matches EntryView::File(file) && !selected(file.name, accepted),
    ensures
        totals_in(entries, accepted) == totals_in(entries.remove(i), accepted),
        forall|e: Seq<char>|
            accepted.contains(e) ==> #[trigger] totals_in(entries, set![e]) == totals_in(
                entries.remove(i),
                set![e],
            ),
{
    lemma_totals_remove(entries, i, accepted);
    assert forall|e: Seq<char>| accepted.contains(e) implies #[trigger] totals_in(entries, set![e])
        == totals_in(entries.remove(i), set![e]) by {
        lemma_totals_remove(entries, i, set![e]);
    }
}

/// A file that could not be opened counts nothing, and the entries beside it
/// count what they count without it.
pub proof fn lemma_unopened_file(entries: Seq<EntryView>, i: int, accepted: Set<Seq<char>>)
    requires
        0 <= i < entries.len(),
        entries[i] matches EntryView::File(file) && file.lines is None,
    ensures
        entry_totals(entries[i], accepted) == (0nat, 0nat),
        totals_in(entries, accepted) == totals_in(entries.remove(i), accepted),
{
    lemma_totals_remove(entries, i, accepted);
}

/// An entry that could not be obtained, or that is neither a directory nor a
/// regular file, counts nothing, and the entries beside it count what they
/// count without it.
pub proof fn lemma_uncounted_entry(entries: Seq<EntryView>, i: int, accepted: Set<Seq<char>>)
    requires
        0 <= i < entries.len(),
        entries[i] is Unreadable || entries[i] is Other,
    ensures
        totals_in(entries, accepted) == totals_in(entries.remove(i), accepted),
{
    lemma_totals_remove(entries, i, accepted);
}

/// A subdirectory contributes what its own entries add up to: a file counts
/// the same at any depth.
pub proof fn lemma_nested(entries: Seq<EntryView>, i: int, accepted: Set<Seq<char>>)
    requires
        0 <= i < entries.len(),
        entries[i] is Directory,
    ensures
        totals_in(entries, accepted) == plus(
            totals_in(entries.remove(i), accepted),
            totals_in(entries[i]->Directory_0.entries, accepted),
        ),
{
    lemma_totals_remove(entries, i, accepted);
}

/// The order of the entries of a listing does not bear on the totals: two
/// listings with the same entries add up to the same.
pub proof fn lemma_order(a: Seq<EntryView>, b: Seq<EntryView>, accepted: Set<Seq<char>>)
    requires
        a.to_multiset() == b.to_multiset(),
    ensures
        totals_in(a, accepted) == totals_in(b, accepted),
    decreases a.len(),
{
    vstd::seq_lib::to_multiset_len(a);
    vstd::seq_lib::to_multiset_len(b);
    if a.len() == 0 {
        assert(a == b);
    } else {
        let x = a.last();
        let rest = a.drop_last();
        assert(a == rest.push(x));
        vstd::seq_lib::to_multiset_build(rest, x);
        vstd::seq_lib::to_multiset_contains(b, x);
        let j = b.index_of(x);
        vstd::seq_lib::to_multiset_remove(b, j);
        assert(rest.to_multiset() == b.remove(j).to_multiset()) by {
            assert(rest.to_multiset().insert(x).remove(x) == rest.to_multiset());
        }
        lemma_order(rest, b.remove(j), accepted);
        lemma_totals_remove(b, j, accepted);
    }
}

/// The sum over a list of files is what one file adds and the sum over the others.
pub proof fn lemma_files_remove(files: Seq<FileView>, i: int, accepted: Set<Seq<char>>)
    requires
        0 <= i < files.len(),
    ensures
        files_totals(files, accepted) == plus(
            files_totals(files.remove(i), accepted),
            files_totals(seq![files[i]], accepted),
        ),
{
    let before = files.take(i);
    let here = seq![files[i]];
    let after = files.skip(i + 1);
    assert(files == before + here + after);
    assert(files.remove(i) == before + after);
    lemma_files_concat(before + here, after, accepted);
    lemma_files_concat(before, here, accepted);
    lemma_files_concat(before, after, accepted);
}

/// The sum over a list of files does not depend on their order.
pub proof fn lemma_files_order(a: Seq<FileView>, b: Seq<FileView>, accepted: Set<Seq<char>>)
    requires
        a.to_multiset() == b.to_multiset(),
    ensures
        files_totals(a, accepted) == files_totals(b, accepted),
    decreases a.len(),
{
    vstd::seq_lib::to_multiset_len(a);
    vstd::seq_lib::to_multiset_len(b);
    if a.len() == 0 {
        assert(a == b);
    } else {
        let x = a.last();
        let rest = a.drop_last();
        assert(a == rest.push(x));
        vstd::seq_lib::to_multiset_build(rest, x);
        vstd::seq_lib::to_multiset_contains(b, x);
        let j = b.index_of(x);
        vstd::seq_lib::to_multiset_remove(b, j);
        assert(rest.to_multiset() == b.remove(j).to_multiset()) by {
            assert(rest.to_multiset().insert(x).remove(x) == rest.to_multiset());
        }
        lemma_files_order(rest, b.remove(j), accepted);
        lemma_files_remove(b, j, accepted);
        lemma_files_remove(a, a.len() - 1, accepted);
        assert(a.remove(a.len() - 1) == rest);
    }
}

/// Two trees that hold the same files add up to the same, in whatever order
/// their directories list them and however deep the files lie.
pub proof fn lemma_same_files(a: Seq<EntryView>, b: Seq<EntryView>, accepted: Set<Seq<char>>)
    requires
        files_in(a).to_multiset() == files_in(b).to_multiset(),
    ensures
        totals_in(a, accepted) == totals_in(b, accepted),
{
    lemma_totals_over_files(a, accepted);
    lemma_totals_over_files(b, accepted);
    lemma_files_order(files_in(a), files_in(b), accepted);
}

/// One report is kept by `no_progress` if it tells of a failure, and dropped if not.
pub proof fn lemma_one_report(wanted: bool, report: ReportView)
    ensures
        report_if(wanted, report).filter(no_progress()) == report_if(
            wanted && !is_progress(report),
            report,
        ),
{
    reveal(Seq::filter);
    Seq::<ReportView>::empty().lemma_filter_push(report, no_progress());
    assert(Seq::<ReportView>::empty().push(report) == seq![report]);
}

/// A quiet walk says what a walk that is not quiet says of failures, in the
/// same order, and nothing else: the entries of a listing.
pub proof fn lemma_quiet_listing(entries: Seq<EntryView>, accepted: Set<Seq<char>>)
    ensures
        listing_reports(entries, accepted, true) == listing_reports(entries, accepted, false).filter(
            no_progress(),
        ),
    decreases entries,
{
    if entries.len() == 0 {
        reveal(Seq::filter);
    } else {
        let rest = entries.drop_last();
        let last = entries.last();
        lemma_quiet_listing(rest, accepted);
        match last {
            EntryView::Directory(dir) => {
                lemma_quiet_directory(dir, accepted);
            },
            EntryView::File(file) => {
                lemma_one_report(true, ReportView::ParseFile(file.path));
                lemma_one_report(file.lines is None, ReportView::OpenError(file.path));
                Seq::filter_distributes_over_add(
                    report_if(true, ReportView::ParseFile(file.path)),
                    report_if(file.lines is None, ReportView::OpenError(file.path)),
                    no_progress(),
                );
                if !selected(file.name, accepted) {
                    reveal(Seq::filter);
                }
            },
            EntryView::Unreadable(reason) => {
                lemma_one_report(true, ReportView::EntryError(reason));
            },
            EntryView::Other(path) => {
                lemma_one_report(true, ReportView::UnknownType(path));
            },
        }
        assert(entry_reports(last, accepted, true) == entry_reports(last, accepted, false).filter(
            no_progress(),
        ));
        Seq::filter_distributes_over_add(
            listing_reports(rest, accepted, false),
            entry_reports(last, accepted, false),
            no_progress(),
        );
    }
}

/// A quiet walk says what a walk that is not quiet says of failures, in the
/// same order, and nothing else.
pub proof fn lemma_quiet_directory(dir: DirectoryView, accepted: Set<Seq<char>>)
    ensures
        directory_reports(dir, accepted, true) == directory_reports(dir, accepted, false).filter(
            no_progress(),
        ),
    decreases dir,
{
    lemma_quiet_listing(dir.entries, accepted);
    lemma_one_report(true, ReportView::EnterDirectory(dir.path));
    Seq::filter_distributes_over_add(
        report_if(true, ReportView::EnterDirectory(dir.path)),
        listing_reports(dir.entries, accepted, false),
        no_progress(),
    );
}

/// The reports of two lists of files, one after the other, follow each other.
pub proof fn lemma_parse_reports_concat(
    a: Seq<FileView>,
    b: Seq<FileView>,
    accepted: Set<Seq<char>>,
)
    ensures
        parse_reports(a + b, accepted) == parse_reports(a, accepted) + parse_reports(b, accepted),
    decreases b.len(),
{
    if b.len() == 0 {
        assert(a + b == a);
    } else {
        assert((a + b).drop_last() == a + b.drop_last());
        lemma_parse_reports_concat(a, b.drop_last(), accepted);
    }
}

/// One report is kept by `parse_only` if it tells of a file about to be read.
pub proof fn lemma_one_parse_report(wanted: bool, report: ReportView)
    ensures
        report_if(wanted, report).filter(parse_only()) == report_if(
            wanted && report is ParseFile,
            report,
        ),
{
    reveal(Seq::filter);
    Seq::<ReportView>::empty().lemma_filter_push(report, parse_only());
    assert(Seq::<ReportView>::empty().push(report) == seq![report]);
}

/// The walk is depth-first: a walk that is not quiet reports the files that
/// it reads in the order in which they stand in the tree, each directory's
/// files, with those of its subdirectories, before the next entry beside it.
pub proof fn lemma_depth_first(entries: Seq<EntryView>, accepted: Set<Seq<char>>)
    ensures
        listing_reports(entries, accepted, false).filter(parse_only()) == parse_reports(
            files_in(entries),
            accepted,
        ),
    decreases entries,
{
    if entries.len() == 0 {
        reveal(Seq::filter);
    } else {
        let rest = entries.drop_last();
        let last = entries.last();
        lemma_depth_first(rest, accepted);
        Seq::filter_distributes_over_add(
            listing_reports(rest, accepted, false),
            entry_reports(last, accepted, false),
            parse_only(),
        );
        match last {
            EntryView::Directory(dir) => {
                lemma_depth_first(dir.entries, accepted);
                lemma_one_parse_report(true, ReportView::EnterDirectory(dir.path));
                Seq::filter_distributes_over_add(
                    report_if(true, ReportView::EnterDirectory(dir.path)),
                    listing_reports(dir.entries, accepted, false),
                    parse_only(),
                );
                lemma_parse_reports_concat(files_in(rest), files_in(dir.entries), accepted);
            },
            EntryView::File(file) => {
                let one = seq![file];
                lemma_one_parse_report(true, ReportView::ParseFile(file.path));
                lemma_one_parse_report(file.lines is None, ReportView::OpenError(file.path));
                Seq::filter_distributes_over_add(
                    report_if(true, ReportView::ParseFile(file.path)),
                    report_if(file.lines is None, ReportView::OpenError(file.path)),
                    parse_only(),
                );
                if !selected(file.name, accepted) {
                    reveal(Seq::filter);
                }
                assert(parse_reports(one.drop_last(), accepted) == Seq::<ReportView>::empty());
                assert(parse_reports(one, accepted) == report_if(
                    selected(file.name, accepted),
                    ReportView::ParseFile(file.path),
                ));
                lemma_parse_reports_concat(files_in(rest), one, accepted);
            },
            EntryView::Unreadable(reason) => {
                lemma_one_parse_report(true, ReportView::EntryError(reason));
                assert(files_in(entries) == files_in(rest));
            },
            EntryView::Other(path) => {
                lemma_one_parse_report(true, ReportView::UnknownType(path));
                assert(files_in(entries) == files_in(rest));
            },
        }
    }
}

/// Where no extension is asked for, nothing is counted.
pub proof fn lemma_nothing_accepted(entries: Seq<EntryView>)
    ensures
        totals_in(entries, Set::empty()) == (0nat, 0nat),
    decreases entries,
{
    if entries.len() > 0 {
        lemma_nothing_accepted(entries.drop_last());
        let last = entries.last();
        match last {
            EntryView::Directory(dir) => {
                lemma_nothing_accepted(dir.entries);
            },
            _ => {},
        }
        assert(entry_totals(last, Set::empty()) == (0nat, 0nat));
    }
}

/// The grand totals are the totals of the extensions asked for, each taken
/// by itself, added up: for two sets of extensions that share none, the
/// totals of both together are the sum of the totals of each.
pub proof fn lemma_totals_split(entries: Seq<EntryView>, a: Set<Seq<char>>, b: Set<Seq<char>>)
    requires
        a.disjoint(b),
    ensures
        totals_in(entries, a.union(b)) == plus(totals_in(entries, a), totals_in(entries, b)),
    decreases entries,
{
    if entries.len() > 0 {
        lemma_totals_split(entries.drop_last(), a, b);
        let last = entries.last();
        match last {
            EntryView::Directory(dir) => {
                lemma_totals_split(dir.entries, a, b);
            },
            _ => {},
        }
        assert(entry_totals(last, a.union(b)) == plus(
            entry_totals(last, a),
            entry_totals(last, b),
        ));
    }
}

} // verus!
