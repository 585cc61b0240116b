//! What the walk says while it goes.

use crate::tree::{selected, DirectoryView, EntryView, FileView};
use vstd::prelude::*;
use vstd::string::StringExecFns;

verus! {

/// One thing that the walk says.
#[derive(Debug, PartialEq, Eq)]
pub enum Report {
    /// A directory is entered.
    EnterDirectory(String),
    /// A file is about to be read.
    ParseFile(String),
    /// An entry of a listing could not be obtained.
    EntryError(String),
    /// A file that was asked for could not be opened.
    OpenError(String),
    /// An entry is neither a directory nor a regular file.
    UnknownType(String),
}

/// A report as the contracts see it.
pub enum ReportView {
    EnterDirectory(Seq<char>),
    ParseFile(Seq<char>),
    EntryError(Seq<char>),
    OpenError(Seq<char>),
    UnknownType(Seq<char>),
}

impl View for Report {
    type V = ReportView;

    open spec fn view(&self) -> ReportView {
        match self {
            Report::EnterDirectory(path) => ReportView::EnterDirectory(path@),
            Report::ParseFile(path) => ReportView::ParseFile(path@),
            Report::EntryError(reason) => ReportView::EntryError(reason@),
            Report::OpenError(path) => ReportView::OpenError(path@),
            Report::UnknownType(path) => ReportView::UnknownType(path@),
        }
    }
}

/// The reports as the contracts see them.
pub open spec fn reports_view(log: Seq<Report>) -> Seq<ReportView> {
    log.map_values(|report: Report| report@)
}

/// The line that tells of a report.
pub open spec fn message_of(report: ReportView) -> Seq<char> {
    match report {
        ReportView::EnterDirectory(path) => "Entry directory: "@ + path,
        ReportView::ParseFile(path) => "Parsing File   : "@ + path,
        ReportView::EntryError(reason) => "Read Path Error: "@ + reason,
        ReportView::OpenError(path) => "File Open Error: "@ + path,
        ReportView::UnknownType(path) => "Undefined Read Type: "@ + path,
    }
}

impl Report {
    /// The line that tells of the report.
    pub fn message(&self) -> (line: String)
        ensures
            line@ == message_of(self@),
    {
        match self {
            Report::EnterDirectory(path) => "Entry directory: ".to_owned().concat(path.as_str()),
            Report::ParseFile(path) => "Parsing File   : ".to_owned().concat(path.as_str()),
            Report::EntryError(reason) => "Read Path Error: ".to_owned().concat(reason.as_str()),
            Report::OpenError(path) => "File Open Error: ".to_owned().concat(path.as_str()),
            Report::UnknownType(path) => "Undefined Read Type: ".to_owned().concat(path.as_str()),
        }
    }
}

/// Whether a report tells of progress only: it is left out of a quiet run.
pub open spec fn is_progress(report: ReportView) -> bool {
    report is EnterDirectory || report is ParseFile
}

/// The test that keeps what tells of a failure.
pub open spec fn no_progress() -> spec_fn(ReportView) -> bool {
    |report: ReportView| !is_progress(report)
}

/// The test that keeps the reports of files about to be read.
pub open spec fn parse_only() -> spec_fn(ReportView) -> bool {
    |report: ReportView| report is ParseFile
}

/// One report, or none.
pub open spec fn report_if(wanted: bool, report: ReportView) -> Seq<ReportView> {
    if wanted {
        seq![report]
    } else {
        Seq::empty()
    }
}

/// What is said of a file: nothing unless it is selected; then that it is
/// parsed, unless `quiet`, and that it could not be opened, if so.
pub open spec fn file_reports(file: FileView, accepted: Set<Seq<char>>, quiet: bool) -> Seq<
    ReportView,
> {
    if selected(file.name, accepted) {
        report_if(!quiet, ReportView::ParseFile(file.path)) + report_if(
            file.lines is None,
            ReportView::OpenError(file.path),
        )
    } else {
        Seq::empty()
    }
}

/// The reports that the selected ones among `files` are about to be read, in their order.
pub open spec fn parse_reports(files: Seq<FileView>, accepted: Set<Seq<char>>) -> Seq<ReportView>
    decreases files.len(),
{
    if files.len() == 0 {
        Seq::empty()
    } else {
        parse_reports(files.drop_last(), accepted) + report_if(
            selected(files.last().name, accepted),
            ReportView::ParseFile(files.last().path),
        )
    }
}

/// What is said of one entry.
pub open spec fn entry_reports(entry: EntryView, accepted: Set<Seq<char>>, quiet: bool) -> Seq<
    ReportView,
>
    decreases entry,
{
    match entry {
        EntryView::Unreadable(reason) => seq![ReportView::EntryError(reason)],
        EntryView::Directory(dir) => directory_reports(dir, accepted, quiet),
        EntryView::File(file) => file_reports(file, accepted, quiet),
        EntryView::Other(path) => seq![ReportView::UnknownType(path)],
    }
}

/// What is said of the entries of a listing, one after the other.
pub open spec fn listing_reports(
    entries: Seq<EntryView>,
    accepted: Set<Seq<char>>,
    quiet: bool,
) -> Seq<ReportView>
    decreases entries,
{
    if entries.len() == 0 {
        Seq::empty()
    } else {
        listing_reports(entries.drop_last(), accepted, quiet) + entry_reports(
            entries.last(),
            accepted,
            quiet,
        )
    }
}

/// What is said of a directory: that it is entered, unless `quiet`, then all
/// that is said of its entries, each subdirectory in full before the next entry.
pub open spec fn directory_reports(
    dir: DirectoryView,
    accepted: Set<Seq<char>>,
    quiet: bool,
) -> Seq<ReportView>
    decreases dir,
{
    report_if(!quiet, ReportView::EnterDirectory(dir.path)) + listing_reports(
        dir.entries,
        accepted,
        quiet,
    )
}

} // verus!
