//! The walk over a directory tree.

use crate::config::Config;
use crate::count::{count, count_add, plus, sum_counts};
use crate::counter::{first_seen, Counter};
use crate::reader::read_file;
use crate::report::{
    directory_reports, entry_reports, listing_reports, report_if, reports_view, Report,
    ReportView,
};
use crate::totals::{entry_totals, totals_in};
use crate::tree::{lemma_entries_view, Directory, Entry, EntryView};
use vstd::prelude::*;

verus! {

/// The counts `counts` after the files under `entries` were added to them:
/// the entry of each accepted extension grows by the totals of the files
/// that have exactly this extension, and no other entry changes.
pub open spec fn added(
    counts: Map<Seq<char>, (Option<u32>, Option<u32>)>,
    entries: Seq<EntryView>,
    accepted: Set<Seq<char>>,
) -> Map<Seq<char>, (Option<u32>, Option<u32>)> {
    Map::new(
        |e: Seq<char>| counts.contains_key(e),
        |e: Seq<char>|
            if accepted.contains(e) {
                let totals = totals_in(entries, set![e]);
                (count_add(counts[e].0, totals.0), count_add(counts[e].1, totals.1))
            } else {
                counts[e]
            },
    )
}

/// Walks the directory depth-first, in the order of its listing. Each file
/// whose extension is asked for is read; its lines and characters are added
/// to the totals that are returned and to the entry of its extension in
/// `counter`. Entries that could not be obtained, files that could not be
/// opened and entries of unknown type count nothing, are reported in `log`,
/// and the walk goes on. Unless `config.quiet`, each directory entered and
/// each file read is reported too.
pub fn read_dir(
    dir: &Directory,
    counter: &mut Counter,
    config: &Config,
    log: &mut Vec<Report>,
) -> (r: (Option<u32>, Option<u32>))
    requires
        old(counter).covers(config),
    ensures
        r.0 == count(totals_in(dir@.entries, config.accepted()).0),
        r.1 == count(totals_in(dir@.entries, config.accepted()).1),
        final(counter)@ == added(old(counter)@, dir@.entries, config.accepted()),
        final(counter).keys() == old(counter).keys(),
        reports_view(final(log)@) == reports_view(old(log)@) + directory_reports(
            dir@,
            config.accepted(),
            config.quiet,
        ),
    decreases dir,
{
    let ghost accepted = config.accepted();
    let ghost entries = dir@.entries;
    let ghost entered = reports_view(old(log)@) + report_if(
        !config.quiet,
        ReportView::EnterDirectory(dir@.path),
    );
    if !config.quiet {
        log.push(Report::EnterDirectory(dir.path.clone()));
    }
    proof {
        lemma_entries_view(dir.entries@);
    }
    let mut line_count: Option<u32> = Some(0);
    let mut char_count: Option<u32> = Some(0);
    let mut i: usize = 0;
    assert(counter@ =~= added(old(counter)@, entries.take(0), accepted)) by {
        assert forall|e: Seq<char>| totals_in(entries.take(0), set![e]) == (0nat, 0nat) by {}
    }
    while i < dir.entries.len()
        invariant
            i <= dir.entries.len(),
            accepted == config.accepted(),
            entries == dir@.entries,
            entries.len() == dir.entries.len(),
            forall|k: int| 0 <= k < entries.len() ==> entries[k] == #[trigger] dir.entries[k]@,
            old(counter).covers(config),
            line_count == count(totals_in(entries.take(i as int), accepted).0),
            char_count == count(totals_in(entries.take(i as int), accepted).1),
            counter@ == added(old(counter)@, entries.take(i as int), accepted),
            counter.keys() == old(counter).keys(),
            reports_view(log@) == entered + listing_reports(
                entries.take(i as int),
                accepted,
                config.quiet,
            ),
        decreases dir.entries.len() - i,
    {
        let ghost seen = entries.take(i as int);
        let ghost next = entries.take(i + 1);
        let ghost entry = entries[i as int];
        let ghost counts = counter@;
        let ghost reported = reports_view(log@);
        proof {
            assert(next.drop_last() == seen);
            assert(next.last() == entry);
            assert(entry == dir.entries[i as int]@);
        }
        match &dir.entries[i] {
            Entry::Unreadable(reason) => {
                log.push(Report::EntryError(reason.clone()));
            },
            Entry::Directory(sub) => {
                let (lc, cc) = read_dir(sub, counter, config, log);
                line_count = sum_counts(line_count, lc);
                char_count = sum_counts(char_count, cc);
            },
            Entry::File(file) => {
                match config.selects(file) {
                    None => {},
                    Some(extension) => {
                        if !config.quiet {
                            log.push(Report::ParseFile(file.path.clone()));
                        }
                        let (lc, cc) = read_file(file, log);
                        line_count = sum_counts(line_count, lc);
                        char_count = sum_counts(char_count, cc);
                        counter.record(&extension, lc, cc);
                    },
                }
            },
            Entry::Other(path) => {
                log.push(Report::UnknownType(path.clone()));
            },
        }
        proof {
            assert(totals_in(next, accepted) == plus(
                totals_in(seen, accepted),
                entry_totals(entry, accepted),
            ));
            assert(reports_view(log@) == reported + entry_reports(entry, accepted, config.quiet));
            assert forall|e: Seq<char>| #[trigger] counts.contains_key(e) implies counter@[e]
                == added(old(counter)@, next, accepted)[e] by {
                assert(totals_in(next, set![e]) == plus(
                    totals_in(seen, set![e]),
                    entry_totals(entry, set![e]),
                ));
            }
            assert(counter@ =~= added(old(counter)@, next, accepted));
        }
        i += 1;
    }
    assert(entries.take(i as int) == entries);
    (line_count, char_count)
}

/// What a run has found.
#[derive(Debug)]
pub struct Summary {
    /// The non-blank lines of all files that were asked for.
    pub line_count: Option<u32>,
    /// The characters that these lines keep when trimmed.
    pub char_count: Option<u32>,
    /// The same, for each extension by itself.
    pub counter: Counter,
    /// What the walk said, in order.
    pub log: Vec<Report>,
}

/// Walks the tree under `root` with a fresh counter: the grand totals, the
/// totals of each extension that `config` asks for, over the files with
/// exactly that extension, and the reports of the walk.
pub fn summarize(root: &Directory, config: &Config) -> (summary: Summary)
    ensures
        summary.line_count == count(totals_in(root@.entries, config.accepted()).0),
        summary.char_count == count(totals_in(root@.entries, config.accepted()).1),
        summary.counter@.dom() == config.accepted(),
        summary.counter.keys() == first_seen(config@.extensions),
        forall|e: Seq<char>| #[trigger]
            config.accepted().contains(e) ==> summary.counter@[e] == (
                count(totals_in(root@.entries, set![e]).0),
                count(totals_in(root@.entries, set![e]).1),
            ),
        reports_view(summary.log@) == directory_reports(root@, config.accepted(), config.quiet),
{
    let mut counter = Counter::new(config);
    let mut log: Vec<Report> = Vec::new();
    let (line_count, char_count) = read_dir(root, &mut counter, config, &mut log);
    Summary { line_count, char_count, counter, log }
}

} // verus!
