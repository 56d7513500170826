//! The two policies that decide on which days an entry is shown.

use crate::calendar::{
    earliest_day_number, is_calendar_date, lemma_day_number_order, lemma_earliest_day, CivilDate,
    Date, MAX_YEAR,
};
use crate::entry::{CalendarEntry, EntryView};
use vstd::prelude::*;

verus! {

/// How an entry is matched against a day.
#[derive(Clone, Copy, Debug, PartialEq, Eq, Structural)]
pub enum Policy {
    /// Each of year, month and day that the entry names equals that of the
    /// day; `show_early` is not looked at. An entry without a year comes back
    /// every year.
    ExactWildcard,
    /// An entry that names year, month and day is shown from `show_early`
    /// days before that date up to the date itself, once. An entry that
    /// leaves one of them open is shown on every day.
    LookaheadWindow,
}

/// Whether each of year, month and day that `e` names equals that of `today`.
pub open spec fn exact_match(e: EntryView, today: CivilDate) -> bool {
    &&& e.year matches Some(year) ==> year == today.year
    &&& e.month matches Some(month) ==> month == today.month
    &&& e.day matches Some(day) ==> day == today.day
}

/// The date that the window of `e` ends on: its own date where it names
/// year, month and day, if the calendar has that date; else `today`.
pub open spec fn target_of(e: EntryView, today: CivilDate) -> Option<CivilDate> {
    match (e.year, e.month, e.day) {
        (Some(year), Some(month), Some(day)) => {
            if is_calendar_date(year as int, month as int, day as int) {
                Some(CivilDate { year: year as int, month: month as int, day: day as int })
            } else {
                None
            }
        },
        _ => Some(today),
    }
}

/// The number of days that `show_early` looks ahead: none where it is negative.
pub open spec fn lookahead(show_early: i64) -> nat {
    if show_early > 0 {
        show_early as nat
    } else {
        0
    }
}

/// The day number on which the window before `target` opens: `show_early`
/// days before the target, but not before the earliest supported day.
pub open spec fn window_start_day(target: CivilDate, show_early: i64) -> int {
    let start = target.day_number() - lookahead(show_early);
    if start >= earliest_day_number() {
        start
    } else {
        earliest_day_number()
    }
}

/// Whether `today` lies in the window of `e`, both ends included.
pub open spec fn lookahead_match(e: EntryView, today: CivilDate) -> bool {
    match target_of(e, today) {
        Some(target) => window_start_day(target, e.show_early) <= today.day_number()
            <= target.day_number(),
        None => false,
    }
}

/// Whether `e` is shown on `today` under `policy`.
pub open spec fn visible(policy: Policy, e: EntryView, today: CivilDate) -> bool {
    match policy {
        Policy::ExactWildcard => exact_match(e, today),
        Policy::LookaheadWindow => lookahead_match(e, today),
    }
}

/// The test that `select_visible` keeps entries by.
pub open spec fn shown_on(policy: Policy, today: CivilDate) -> spec_fn(CalendarEntry) -> bool {
    |e: CalendarEntry| visible(policy, e@, today)
}

/// The entries that a sequence of borrows points to.
pub open spec fn referents(entries: Seq<&CalendarEntry>) -> Seq<CalendarEntry> {
    entries.map_values(|e: &CalendarEntry| *e)
}

fn part_matches(part: Option<u32>, today: u32) -> (same: bool)
    ensures
        same == (part matches Some(value) ==> value == today),
{
    match part {
        Some(value) => value == today,
        None => true,
    }
}

impl CalendarEntry {
    /// Whether each of year, month and day that the entry names equals that of `today`.
    pub fn matches_exactly(&self, today: &Date) -> (same: bool)
        ensures
            same == exact_match(self@, today@),
    {
        let year_matches = match self.year {
            Some(year) => today.year() >= 0 && year == today.year() as u32,
            None => true,
        };
        year_matches && part_matches(self.month, today.month()) && part_matches(
            self.day,
            today.day(),
        )
    }

    /// The date that the entry's window ends on; `None` if the entry names a
    /// year, month and day that the calendar does not have.
    pub fn target_date(&self, today: &Date) -> (target: Option<Date>)
        ensures
            match target {
                Some(date) => target_of(self@, today@) == Some(date@),
                None => target_of(self@, today@) is None,
            },
    {
        match (self.year, self.month, self.day) {
            (Some(year), Some(month), Some(day)) => {
                if year > MAX_YEAR as u32 {
                    None
                } else {
                    Date::from_ymd_opt(year as i32, month, day)
                }
            },
            _ => Some(*today),
        }
    }

    /// The first and the last day of the entry's window; `None` if the entry
    /// has no target date.
    pub fn window(&self, today: &Date) -> (bounds: Option<(Date, Date)>)
        ensures
            match bounds {
                Some((start, target)) => {
                    &&& target_of(self@, today@) == Some(target@)
                    &&& start@.is_valid()
                    &&& start@.day_number() == window_start_day(target@, self@.show_early)
                },
                None => target_of(self@, today@) is None,
            },
    {
        match self.target_date(today) {
            Some(target) => {
                if self.show_early > 0 {
                    Some((target.minus_days_saturating(self.show_early as u64), target))
                } else {
                    proof {
                        use_type_invariant(target);
                        lemma_earliest_day(target@);
                    }
                    Some((target, target))
                }
            },
            None => None,
        }
    }

    /// The first day of the entry's window; `None` if the entry has no target date.
    pub fn window_start(&self, today: &Date) -> (start: Option<Date>)
        ensures
            start is Some <==> target_of(self@, today@) is Some,
            start matches Some(date) ==> date@.is_valid() && date@.day_number()
                == window_start_day(target_of(self@, today@).unwrap(), self@.show_early),
    {
        match self.window(today) {
            Some((start, _)) => Some(start),
            None => None,
        }
    }

    /// Whether the entry is shown on `today` under the lookahead policy:
    /// whether `today` lies in the entry's window, both ends included.
    pub fn should_show_entry(&self, today: &Date) -> (shown: bool)
        ensures
            shown == lookahead_match(self@, today@),
    {
        match self.window(today) {
            Some((start, target)) => start.is_on_or_before(today) && today.is_on_or_before(&target),
            None => false,
        }
    }

    /// Whether the entry is shown on `today` under `policy`.
    pub fn is_visible(&self, today: &Date, policy: Policy) -> (shown: bool)
        ensures
            shown == visible(policy, self@, today@),
    {
        match policy {
            Policy::ExactWildcard => self.matches_exactly(today),
            Policy::LookaheadWindow => self.should_show_entry(today),
        }
    }

    /// The entries of `entries` that are shown on `today` under `policy`, in order.
    pub fn select_visible<'a>(
        entries: &'a Vec<CalendarEntry>,
        today: &Date,
        policy: Policy,
    ) -> (shown: Vec<&'a CalendarEntry>)
        ensures
            referents(shown@) == entries@.filter(shown_on(policy, today@)),
    {
        let ghost test = shown_on(policy, today@);
        let mut shown: Vec<&'a CalendarEntry> = Vec::new();
        let mut i: usize = 0;
        proof {
            reveal(Seq::filter);
            assert(entries@.take(0) =~= Seq::<CalendarEntry>::empty());
            assert(referents(shown@) =~= Seq::<CalendarEntry>::empty());
        }
        while i < entries.len()
            invariant
                i <= entries.len(),
                test == shown_on(policy, today@),
                referents(shown@) == entries@.take(i as int).filter(test),
            decreases entries.len() - i,
        {
            let ghost earlier = shown@;
            proof {
                reveal(Seq::filter);
                assert(entries@.take(i + 1).drop_last() =~= entries@.take(i as int));
                assert(entries@.take(i + 1).last() == entries@[i as int]);
            }
            let entry = &entries[i];
            if entry.is_visible(today, policy) {
                shown.push(entry);
                assert(referents(shown@) =~= referents(earlier).push(*entry));
            }
            i += 1;
        }
        assert(entries@.take(entries.len() as int) =~= entries@);
        shown
    }
}

/// An entry that names year, month and day and looks no day ahead is shown
/// on that very date and on no other day, under either policy.
pub proof fn lemma_dated_entry_is_shown_on_its_date_only(
    policy: Policy,
    e: EntryView,
    today: CivilDate,
)
    requires
        today.is_valid(),
        !e.has_wildcard(),
        e.show_early <= 0,
    ensures
        visible(policy, e, today) <==> (e.year.unwrap() == today.year && e.month.unwrap()
            == today.month && e.day.unwrap() == today.day),
{
    if let Some(target) = target_of(e, today) {
        lemma_day_number_order(target, today);
        lemma_earliest_day(target);
    }
}

/// What the exact policy shows, the lookahead policy shows too.
pub proof fn lemma_exact_match_lies_in_window(e: EntryView, today: CivilDate)
    requires
        today.is_valid(),
        exact_match(e, today),
    ensures
        lookahead_match(e, today),
{
    lemma_earliest_day(today);
}

/// Under the lookahead policy an entry that leaves year, month or day open
/// is shown on every day: its window ends on the day on which it is looked at.
pub proof fn lemma_open_entry_is_always_shown(e: EntryView, today: CivilDate)
    requires
        today.is_valid(),
        e.has_wildcard(),
    ensures
        lookahead_match(e, today),
{
    lemma_earliest_day(today);
}

/// Under the lookahead policy an entry with a date is shown on the
/// `lookahead(show_early)` days before its date and on the date, and on no
/// other day; where the window is cut at the earliest supported day, no day
/// is lost by it.
pub proof fn lemma_window_spans_the_lookahead(e: EntryView, today: CivilDate)
    requires
        today.is_valid(),
        target_of(e, today) is Some,
    ensures
        lookahead_match(e, today) <==> 0 <= target_of(e, today).unwrap().day_number()
            - today.day_number() <= lookahead(e.show_early),
{
    lemma_earliest_day(today);
}

} // verus!
