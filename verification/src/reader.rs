//! The statistics of one file.

use crate::count::{count, count_of, sum_counts};
use crate::text::trimmed_len;
use crate::report::{report_if, reports_view, Report, ReportView};
use crate::totals::{file_totals, lines_totals};
use crate::tree::{lines_view, File, Line};
use vstd::prelude::*;

verus! {

/// Counts the non-blank lines of `file` and the characters that they keep
/// when trimmed. A line that is no valid text is passed over. A file that was
/// not opened yields nothing and is reported in `log`.
pub fn read_file(file: &File, log: &mut Vec<Report>) -> (r: (Option<u32>, Option<u32>))
    ensures
        r.0 == count(file_totals(file@).0),
        r.1 == count(file_totals(file@).1),
        reports_view(final(log)@) == reports_view(old(log)@) + report_if(
            file@.lines is None,
            ReportView::OpenError(file@.path),
        ),
{
    match &file.lines {
        None => {
            log.push(Report::OpenError(file.path.clone()));
            (Some(0), Some(0))
        },
        Some(lines) => {
            let mut line_count: Option<u32> = Some(0);
            let mut char_count: Option<u32> = Some(0);
            let mut i: usize = 0;
            while i < lines.len()
                invariant
                    i <= lines.len(),
                    line_count == count(lines_totals(lines_view(lines@).take(i as int)).0),
                    char_count == count(lines_totals(lines_view(lines@).take(i as int)).1),
                decreases lines.len() - i,
            {
                assert(lines_view(lines@).take(i + 1).drop_last() == lines_view(lines@).take(
                    i as int,
                ));
                match &lines[i] {
                    Line::Text(text) => {
                        let cc = trimmed_len(text.as_str());
                        if cc != 0 {
                            line_count = sum_counts(line_count, Some(1));
                            char_count = sum_counts(char_count, count_of(cc));
                        }
                    },
                    Line::Invalid => {},
                }
                i = i + 1;
            }
            assert(lines_view(lines@).take(i as int) == lines_view(lines@));
            (line_count, char_count)
        },
    }
}

} // verus!
