//! What is told about the entries that are shown: a heading, and one line
//! for each entry with the color to print it in.

use crate::calendar::Date;
use crate::color::{color_of, Color};
use crate::entry::{display_text, CalendarEntry, EntryView};
use crate::visibility::{referents, shown_on, Policy};
use vstd::prelude::*;

verus! {

/// The mathematical view of a [`ReportLine`].
pub struct ReportLineView {
    pub text: Seq<char>,
    pub color: Option<Color>,
}

/// One line of a report: its text, and its color where the entry names one.
#[derive(Debug, PartialEq, Eq)]
pub struct ReportLine {
    pub text: String,
    pub color: Option<Color>,
}

impl View for ReportLine {
    type V = ReportLineView;

    open spec fn view(&self) -> ReportLineView {
        ReportLineView { text: self.text@, color: self.color }
    }
}

/// A heading and the lines of the entries that are shown, in their order.
#[derive(Debug, PartialEq, Eq)]
pub struct Report {
    pub heading: String,
    pub lines: Vec<ReportLine>,
}

/// The heading over `shown` entries: it says whether there are any.
pub open spec fn heading_text(shown: nat) -> Seq<char> {
    if shown > 0 {
        "This is happening in the near future:"@
    } else {
        "It seems like there is nothing happening in the near future!"@
    }
}

/// The line that reports an entry: its name and date, in its color.
pub open spec fn line_for(e: EntryView) -> ReportLineView {
    ReportLineView { text: display_text(e), color: color_of(e.color) }
}

impl Report {
    /// The report on the entries that are shown.
    pub fn of(shown: &Vec<&CalendarEntry>) -> (report: Report)
        ensures
            report.heading@ == heading_text(shown@.len()),
            report.lines@.len() == shown@.len(),
            forall|i: int|
                0 <= i < shown@.len() ==> (#[trigger] report.lines@[i])@ == line_for(shown@[i]@),
    {
        let heading = if shown.len() > 0 {
            "This is happening in the near future:".to_owned()
        } else {
            "It seems like there is nothing happening in the near future!".to_owned()
        };
        let mut lines: Vec<ReportLine> = Vec::new();
        let mut i: usize = 0;
        while i < shown.len()
            invariant
                i <= shown.len(),
                lines@.len() == i,
                forall|j: int| 0 <= j < i ==> (#[trigger] lines@[j])@ == line_for(shown@[j]@),
            decreases shown.len() - i,
        {
            let entry = shown[i];
            let line = ReportLine {
                text: entry.display_line(),
                color: CalendarEntry::get_color(entry.color.as_str()),
            };
            lines.push(line);
            i += 1;
        }
        Report { heading, lines }
    }

    /// The report on those of `entries` that are shown on `today` under `policy`.
    pub fn on(entries: &Vec<CalendarEntry>, today: &Date, policy: Policy) -> (report: Report)
        ensures
            ({
                let shown = entries@.filter(shown_on(policy, today@));
                &&& report.heading@ == heading_text(shown.len())
                &&& report.lines@.len() == shown.len()
                &&& forall|i: int|
                    0 <= i < shown.len() ==> (#[trigger] report.lines@[i])@ == line_for(shown[i]@)
            }),
    {
        let shown = CalendarEntry::select_visible(entries, today, policy);
        let report = Report::of(&shown);
        proof {
            let kept = entries@.filter(shown_on(policy, today@));
            assert(referents(shown@).len() == shown@.len());
            assert forall|i: int| 0 <= i < kept.len() implies (#[trigger] report.lines@[i])@
                == line_for(kept[i]@) by {
                assert(referents(shown@)[i] == *shown@[i]);
            }
        }
        report
    }
}

} // verus!
