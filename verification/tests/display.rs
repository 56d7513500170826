use birthday_reminder::color::Color;
use birthday_reminder::entry::CalendarEntry;
use birthday_reminder::report::{Report, ReportLine};
use birthday_reminder::{Date, Policy};

fn entry(year: Option<u32>, month: Option<u32>, day: Option<u32>, name: &str) -> CalendarEntry {
    CalendarEntry {
        year,
        month,
        day,
        name: name.to_string(),
        color: "blue".to_string(),
        show_early: 3,
    }
}

#[test]
fn date_is_described_month_day_year() {
    assert_eq!(entry(Some(2024), Some(3), Some(15), "").describe_date(), "3/15/2024");
    assert_eq!(entry(Some(0), Some(12), Some(1), "").describe_date(), "12/1/0");
    assert_eq!(
        entry(Some(4294967295), Some(4294967295), Some(0), "").describe_date(),
        "4294967295/0/4294967295"
    );
    assert_eq!(entry(Some(1000), Some(10), Some(10), "").describe_date(), "10/10/1000");
}

#[test]
fn open_parts_are_described_by_their_phrases() {
    assert_eq!(entry(Some(2024), Some(3), None, "").describe_date(), "3/Every day!/2024");
    assert_eq!(entry(Some(2024), None, Some(15), "").describe_date(), "Every month!/15/2024");
    assert_eq!(entry(Some(2024), None, None, "").describe_date(), "Every month!/Every day!/2024");
    assert_eq!(entry(None, Some(3), Some(15), "").describe_date(), "3/15/Every year!");
    assert_eq!(entry(None, Some(3), None, "").describe_date(), "3/Every day!/Every year!");
    assert_eq!(entry(None, None, Some(15), "").describe_date(), "Every month!/15/Every year!");
    assert_eq!(
        entry(None, None, None, "").describe_date(),
        "Every month!/Every day!/Every year!"
    );
}

#[test]
fn description_looks_at_the_date_alone() {
    let one = entry(None, Some(3), Some(15), "one");
    let mut other = entry(None, Some(3), Some(15), "other");
    other.color = "red".to_string();
    other.show_early = -9;
    assert_eq!(one.describe_date(), other.describe_date());
}

#[test]
fn shown_line_names_the_entry_and_its_date() {
    assert_eq!(
        entry(Some(2024), Some(3), Some(15), "Launch").display_line(),
        "Launch - Date: 3/15/2024"
    );
    assert_eq!(
        entry(None, Some(3), Some(15), "Recurring").display_line(),
        "Recurring - Date: 3/15/Every year!"
    );
    assert_eq!(
        entry(None, None, None, "").display_line(),
        " - Date: Every month!/Every day!/Every year!"
    );
}

#[test]
fn color_keys_name_their_colors() {
    assert_eq!(CalendarEntry::get_color("red"), Some(Color::Red));
    assert_eq!(CalendarEntry::get_color("green"), Some(Color::Green));
    assert_eq!(CalendarEntry::get_color("blue"), Some(Color::Blue));
    assert_eq!(CalendarEntry::get_color("yellow"), Some(Color::Yellow));
    assert_eq!(CalendarEntry::get_color("pink"), Some(Color::Magenta));
    assert_eq!(CalendarEntry::get_color("purple"), Some(Color::Ansi256(129)));
    assert_eq!(CalendarEntry::get_color("orange"), Some(Color::Ansi256(202)));
}

#[test]
fn other_texts_name_no_color() {
    let texts = [
        "", "Red", "RED", " red", "red ", "magenta", "black", "white", "re", "redd", "129",
        "\"red\"", "r\u{e9}d", "pinkish", "oran", "gree", "yello", "purpl", "blu",
    ];
    for text in texts.iter() {
        assert_eq!(CalendarEntry::get_color(text), None, "{:?}", text);
    }
}

#[test]
fn report_has_a_line_for_each_shown_entry() {
    let mut launch = entry(Some(2024), Some(3), Some(15), "Launch");
    launch.color = "red".to_string();
    let mut yearly = entry(None, Some(3), Some(12), "Recurring");
    yearly.color = "orange".to_string();
    yearly.show_early = 0;
    let mut past = entry(Some(2024), Some(3), Some(11), "Past");
    past.color = "green".to_string();
    let mut plain = entry(None, None, None, "Daily");
    plain.color = "mauve".to_string();
    let entries = vec![launch, yearly, past, plain];
    let today = match Date::from_ymd_opt(2024, 3, 12) {
        Some(today) => today,
        None => panic!("no such day"),
    };

    let ahead = Report::on(&entries, &today, Policy::LookaheadWindow);
    assert_eq!(ahead.heading, "This is happening in the near future:");
    assert_eq!(
        ahead.lines,
        vec![
            ReportLine { text: "Launch - Date: 3/15/2024".to_string(), color: Some(Color::Red) },
            ReportLine {
                text: "Recurring - Date: 3/12/Every year!".to_string(),
                color: Some(Color::Ansi256(202)),
            },
            ReportLine {
                text: "Daily - Date: Every month!/Every day!/Every year!".to_string(),
                color: None,
            },
        ]
    );

    let exact = Report::on(&entries, &today, Policy::ExactWildcard);
    assert_eq!(exact.heading, "This is happening in the near future:");
    let texts: Vec<&str> = exact.lines.iter().map(|line| line.text.as_str()).collect();
    assert_eq!(
        texts,
        vec![
            "Recurring - Date: 3/12/Every year!",
            "Daily - Date: Every month!/Every day!/Every year!"
        ]
    );

    let chosen: Vec<&CalendarEntry> = vec![&entries[2], &entries[0], &entries[2]];
    let report = Report::of(&chosen);
    assert_eq!(report.heading, "This is happening in the near future:");
    assert_eq!(report.lines.len(), 3);
    assert_eq!(report.lines[0], report.lines[2]);
    assert_eq!(
        report.lines[0],
        ReportLine { text: "Past - Date: 3/11/2024".to_string(), color: Some(Color::Green) }
    );
}

#[test]
fn report_says_when_nothing_is_shown() {
    let today = match Date::from_ymd_opt(2024, 3, 12) {
        Some(today) => today,
        None => panic!("no such day"),
    };
    let launch = entry(Some(2024), Some(3), Some(15), "Launch");
    let entries = vec![launch];
    let exact = Report::on(&entries, &today, Policy::ExactWildcard);
    assert_eq!(exact.heading, "It seems like there is nothing happening in the near future!");
    assert!(exact.lines.is_empty());
    let none: Vec<CalendarEntry> = Vec::new();
    let empty = Report::on(&none, &today, Policy::LookaheadWindow);
    assert_eq!(empty.heading, "It seems like there is nothing happening in the near future!");
    assert!(empty.lines.is_empty());
    let nothing: Vec<&CalendarEntry> = Vec::new();
    assert_eq!(Report::of(&nothing), empty);
}
