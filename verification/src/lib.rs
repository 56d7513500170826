//! Calendar reminders.
//!
//! A reminder file holds one entry per line: a date whose year, month and day
//! may each be left open, a name, a color key and a lookahead in days. This
//! library reads such lines ([`entry`]), decides on which days an entry is
//! shown ([`visibility`]), and says how it is shown ([`color`], [`report`]).
//! The calendar behind it is chrono's ([`calendar`]); [`text`] holds the
//! work on characters and decimal numbers. The day on which an entry is
//! looked at is handed in by the caller: the library reads no clock.

pub mod calendar;
pub mod color;
pub mod entry;
pub mod report;
pub mod text;
pub mod visibility;

pub use calendar::Date;
pub use color::Color;
pub use entry::CalendarEntry;
pub use report::{Report, ReportLine};
pub use visibility::Policy;
