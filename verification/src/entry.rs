//! Calendar entries and their one-line text form.
//!
//! A line is a list of `Key:Value` fields separated by `;`. The keys are
//! `Year`, `Month`, `Day`, `Name`, `Color` and `ShowBefore`; `showEarly` is
//! an older spelling of `ShowBefore` and is read the same way.

use crate::text::{
    chars_of, decimal, find_char, free_of, index_of, lemma_decimal_free_of,
    lemma_index_of_joined, lemma_parse_i64_signed_decimal, lemma_parse_u32_decimal,
    lemma_split_joined, lemma_split_pieces_are_free, lemma_split_single, parse_i64, parse_u32,
    push_decimal, push_signed_decimal, range_is, read_i64, read_u32, signed_decimal, split,
    strip_quotes, unquoted_range,
};
use vstd::prelude::*;
use vstd::string::*;

verus! {

/// The `show_early` of an entry whose line names none, or names one that is
/// no number. It is negative, and so looks no day ahead.
pub const NO_LOOKAHEAD: i64 = -1;

/// The mathematical view of a [`CalendarEntry`].
pub struct EntryView {
    pub year: Option<u32>,
    pub month: Option<u32>,
    pub day: Option<u32>,
    pub name: Seq<char>,
    pub color: Seq<char>,
    pub show_early: i64,
}

impl EntryView {
    /// The entry that a line without any field content stands for.
    pub open spec fn blank() -> EntryView {
        EntryView {
            year: None,
            month: None,
            day: None,
            name: Seq::empty(),
            color: Seq::empty(),
            show_early: NO_LOOKAHEAD,
        }
    }

    /// Whether year, month or day is left open.
    pub open spec fn has_wildcard(self) -> bool {
        self.year is None || self.month is None || self.day is None
    }
}

/// One reminder: a date whose year, month and day may each be left open, a
/// label, a color key, and in `show_early` the number of days before the
/// date from which the entry is to be shown.
#[derive(Debug, PartialEq, Eq)]
pub struct CalendarEntry {
    pub year: Option<u32>,
    pub month: Option<u32>,
    pub day: Option<u32>,
    pub name: String,
    pub color: String,
    pub show_early: i64,
}

impl View for CalendarEntry {
    type V = EntryView;

    open spec fn view(&self) -> EntryView {
        EntryView {
            year: self.year,
            month: self.month,
            day: self.day,
            name: self.name@,
            color: self.color@,
            show_early: self.show_early,
        }
    }
}

impl Clone for CalendarEntry {
    fn clone(&self) -> (copy: Self)
        ensures
            copy == *self,
    {
        CalendarEntry {
            year: self.year,
            month: self.month,
            day: self.day,
            name: self.name.clone(),
            color: self.color.clone(),
            show_early: self.show_early,
        }
    }
}

/// The fields that a line can set.
#[derive(Clone, Copy, Debug, PartialEq, Eq, Structural)]
pub enum FieldKey {
    Year,
    Month,
    Day,
    Name,
    Color,
    ShowEarly,
}

/// The field that a key names. A key is matched letter for letter; upper and
/// lower case differ.
pub open spec fn key_of(word: Seq<char>) -> Option<FieldKey> {
    if word == "Year"@ {
        Some(FieldKey::Year)
    } else if word == "Month"@ {
        Some(FieldKey::Month)
    } else if word == "Day"@ {
        Some(FieldKey::Day)
    } else if word == "Name"@ {
        Some(FieldKey::Name)
    } else if word == "Color"@ {
        Some(FieldKey::Color)
    } else if word == "ShowBefore"@ || word == "showEarly"@ {
        Some(FieldKey::ShowEarly)
    } else {
        None
    }
}

/// The entry `e` after the field `key` has been given the text `value`.
///
/// A year, month or day that is no number is left open. A name or color
/// loses one pair of enclosing double quotes. A `show_early` that is no
/// number is `NO_LOOKAHEAD`.
pub open spec fn with_field(e: EntryView, key: FieldKey, value: Seq<char>) -> EntryView {
    match key {
        FieldKey::Year => EntryView { year: parse_u32(value), ..e },
        FieldKey::Month => EntryView { month: parse_u32(value), ..e },
        FieldKey::Day => EntryView { day: parse_u32(value), ..e },
        FieldKey::Name => EntryView { name: strip_quotes(value), ..e },
        FieldKey::Color => EntryView { color: strip_quotes(value), ..e },
        FieldKey::ShowEarly => EntryView {
            show_early: match parse_i64(value) {
                Some(days) => days,
                None => NO_LOOKAHEAD,
            },
            ..e
        },
    }
}

/// The entry `e` after one `Key:Value` field. The key ends at the first `:`.
/// A field without `:` or with an unknown key gives nothing.
pub open spec fn apply_field(e: EntryView, field: Seq<char>) -> Option<EntryView> {
    let colon = index_of(field, ':');
    if colon < field.len() {
        match key_of(field.take(colon as int)) {
            Some(key) => Some(with_field(e, key, field.skip((colon + 1) as int))),
            None => None,
        }
    } else {
        None
    }
}

/// The entry `e` after all of `fields`, in order; nothing if one of them gives nothing.
pub open spec fn apply_fields(e: EntryView, fields: Seq<Seq<char>>) -> Option<EntryView>
    decreases fields.len(),
{
    if fields.len() == 0 {
        Some(e)
    } else {
        match apply_field(e, fields[0]) {
            Some(next) => apply_fields(next, fields.drop_first()),
            None => None,
        }
    }
}

/// The entry that a line stands for, if it stands for one.
pub open spec fn parse_line(line: Seq<char>) -> Option<EntryView> {
    apply_fields(EntryView::blank(), split(line, ';'))
}

/// The text of a year, month or day field with the `;` that ends it; empty
/// where the value is left open.
pub open spec fn number_field(key: Seq<char>, value: Option<u32>) -> Seq<char> {
    match value {
        Some(n) => key + seq![':'] + decimal(n as nat) + seq![';'],
        None => Seq::empty(),
    }
}

/// The text of a name or color field, its value in double quotes.
pub open spec fn quoted_field(key: Seq<char>, text: Seq<char>) -> Seq<char> {
    key + seq![':', '"'] + text + seq!['"']
}

/// The text of the `ShowBefore` field.
pub open spec fn show_early_field(show_early: i64) -> Seq<char> {
    "ShowBefore"@ + seq![':'] + signed_decimal(show_early as int)
}

/// The `Name`, `Color` and `ShowBefore` fields of an entry, separated by `;`.
pub open spec fn text_fields(e: EntryView) -> Seq<char> {
    quoted_field("Name"@, e.name) + seq![';'] + (quoted_field("Color"@, e.color) + seq![';']
        + show_early_field(e.show_early))
}

/// The line that an entry is written as: the year, month and day that it
/// names, then its name, its color and its `show_early`.
pub open spec fn serialize(e: EntryView) -> Seq<char> {
    number_field("Year"@, e.year) + (number_field("Month"@, e.month) + (number_field(
        "Day"@,
        e.day,
    ) + text_fields(e)))
}

/// A year, month or day as it is shown: its number, or the phrase that
/// stands for "any".
pub open spec fn date_part(value: Option<u32>, wildcard: Seq<char>) -> Seq<char> {
    match value {
        Some(n) => decimal(n as nat),
        None => wildcard,
    }
}

/// The date of an entry as it is shown: month, day and year, separated by `/`.
pub open spec fn date_description(e: EntryView) -> Seq<char> {
    date_part(e.month, "Every month!"@) + seq!['/'] + date_part(e.day, "Every day!"@) + seq!['/']
        + date_part(e.year, "Every year!"@)
}

/// The line that is shown for an entry: its name and its date.
pub open spec fn display_text(e: EntryView) -> Seq<char> {
    e.name + " - Date: "@ + date_description(e)
}

/// The views of a sequence of entries.
pub open spec fn entry_views(entries: Seq<CalendarEntry>) -> Seq<EntryView> {
    entries.map_values(|e: CalendarEntry| e@)
}

/// Reading of one line of a list of lines.
pub open spec fn line_reader() -> spec_fn(String) -> Option<EntryView> {
    |line: String| parse_line(line@)
}

fn read_key(chars: &Vec<char>, from: usize, to: usize) -> (key: Option<FieldKey>)
    requires
        from <= to <= chars.len(),
    ensures
        key == key_of(chars@.subrange(from as int, to as int)),
{
    if range_is(chars, from, to, "Year") {
        Some(FieldKey::Year)
    } else if range_is(chars, from, to, "Month") {
        Some(FieldKey::Month)
    } else if range_is(chars, from, to, "Day") {
        Some(FieldKey::Day)
    } else if range_is(chars, from, to, "Name") {
        Some(FieldKey::Name)
    } else if range_is(chars, from, to, "Color") {
        Some(FieldKey::Color)
    } else if range_is(chars, from, to, "ShowBefore") || range_is(chars, from, to, "showEarly") {
        Some(FieldKey::ShowEarly)
    } else {
        None
    }
}

fn push_number_field(out: &mut String, key: &str, value: Option<u32>)
    ensures
        final(out)@ == old(out)@ + number_field(key@, value),
{
    match value {
        Some(n) => {
            proof {
                reveal_strlit(":");
                reveal_strlit(";");
            }
            out.append(key);
            out.append(":");
            push_decimal(out, n as u64);
            out.append(";");
            assert(":"@ =~= seq![':']);
            assert(";"@ =~= seq![';']);
            assert(final(out)@ =~= old(out)@ + number_field(key@, value));
        },
        None => {
            assert(old(out)@ + Seq::<char>::empty() =~= old(out)@);
        },
    }
}

fn push_quoted_field(out: &mut String, key: &str, text: &str)
    ensures
        final(out)@ == old(out)@ + quoted_field(key@, text@),
{
    proof {
        reveal_strlit(":\"");
        reveal_strlit("\"");
    }
    out.append(key);
    out.append(":\"");
    out.append(text);
    out.append("\"");
    assert(":\""@ =~= seq![':', '"']);
    assert("\""@ =~= seq!['"']);
    assert(final(out)@ =~= old(out)@ + quoted_field(key@, text@));
}

fn push_date_part(out: &mut String, value: Option<u32>, wildcard: &str)
    ensures
        final(out)@ == old(out)@ + date_part(value, wildcard@),
{
    match value {
        Some(n) => push_decimal(out, n as u64),
        None => out.append(wildcard),
    }
}

impl CalendarEntry {
    /// An entry with every date part left open, no name, no color and no lookahead.
    pub fn blank() -> (entry: CalendarEntry)
        ensures
            entry@ == EntryView::blank(),
    {
        CalendarEntry {
            year: None,
            month: None,
            day: None,
            name: String::new(),
            color: String::new(),
            show_early: NO_LOOKAHEAD,
        }
    }

    /// Gives the field `key` the value written in `chars[from..to)`.
    fn store(&mut self, key: FieldKey, line: &str, chars: &Vec<char>, from: usize, to: usize)
        requires
            chars@ == line@,
            from <= to <= chars.len(),
        ensures
            final(self)@ == with_field(old(self)@, key, line@.subrange(from as int, to as int)),
    {
        match key {
            FieldKey::Year => {
                self.year = read_u32(chars, from, to);
            },
            FieldKey::Month => {
                self.month = read_u32(chars, from, to);
            },
            FieldKey::Day => {
                self.day = read_u32(chars, from, to);
            },
            FieldKey::Name => {
                let inner = unquoted_range(chars, from, to);
                self.name = line.substring_char(inner.0, inner.1).to_owned();
            },
            FieldKey::Color => {
                let inner = unquoted_range(chars, from, to);
                self.color = line.substring_char(inner.0, inner.1).to_owned();
            },
            FieldKey::ShowEarly => {
                self.show_early = match read_i64(chars, from, to) {
                    Some(days) => days,
                    None => NO_LOOKAHEAD,
                };
            },
        }
    }

    /// Applies the field written in `chars[from..to)`; tells whether it was one.
    fn set_field(&mut self, line: &str, chars: &Vec<char>, from: usize, to: usize) -> (ok: bool)
        requires
            chars@ == line@,
            from <= to <= chars.len(),
        ensures
            ok ==> apply_field(old(self)@, line@.subrange(from as int, to as int)) == Some(
                final(self)@,
            ),
            !ok ==> apply_field(old(self)@, line@.subrange(from as int, to as int)) is None,
    {
        let ghost field = line@.subrange(from as int, to as int);
        let colon = find_char(chars, from, to, ':');
        if colon == to {
            return false;
        }
        assert(field.take(colon - from) =~= line@.subrange(from as int, colon as int));
        assert(field.skip(colon - from + 1) =~= line@.subrange(colon + 1, to as int));
        match read_key(chars, from, colon) {
            Some(key) => {
                self.store(key, line, chars, colon + 1, to);
                true
            },
            None => false,
        }
    }

    /// Reads an entry from one line of text.
    ///
    /// The line is cut at each `;` into fields, and each field at its first
    /// `:` into key and value. The fields are applied from left to right, so
    /// that of two fields that set the same part of the entry the later one
    /// counts. `ShowBefore` and `showEarly` set the same part: a line that
    /// holds both is read, and the one that stands later gives `show_early`.
    /// One field without `:` or with an unknown key makes the whole line no
    /// entry; so the empty line is no entry, nor is a line that ends in `;`.
    pub fn from_string(line: &str) -> (entry: Option<CalendarEntry>)
        ensures
            match entry {
                Some(e) => parse_line(line@) == Some(e@),
                None => parse_line(line@) is None,
            },
    {
        let chars = chars_of(line);
        let n: usize = chars.len();
        let mut entry = CalendarEntry::blank();
        let mut start: usize = 0;
        assert(line@.skip(0) =~= line@);
        loop
            invariant
                chars@ == line@,
                n == chars.len(),
                start <= n,
                parse_line(line@) == apply_fields(entry@, split(line@.skip(start as int), ';')),
            decreases n - start,
        {
            let end = find_char(&chars, start, n, ';');
            let ghost rest = line@.skip(start as int);
            let ghost field = line@.subrange(start as int, end as int);
            let ghost fields = split(rest, ';');
            assert(rest =~= line@.subrange(start as int, n as int));
            assert(rest.take(end - start) =~= field);
            assert(fields[0] == field);
            let ok = entry.set_field(line, &chars, start, end);
            if !ok {
                return None;
            }
            if end == n {
                assert(fields.drop_first() =~= Seq::<Seq<char>>::empty());
                assert(apply_fields(entry@, fields.drop_first()) == Some(entry@));
                return Some(entry);
            }
            assert(rest.skip(end - start + 1) =~= line@.skip(end + 1));
            assert(fields.drop_first() =~= split(line@.skip(end + 1), ';'));
            start = end + 1;
        }
    }

    /// Reads the entries of a list of lines, in order. A line that is no
    /// entry is passed over.
    pub fn parse_entries(lines: &Vec<String>) -> (entries: Vec<CalendarEntry>)
        ensures
            entry_views(entries@) == lines@.filter_map(line_reader()),
    {
        let mut entries: Vec<CalendarEntry> = Vec::new();
        let mut i: usize = 0;
        assert(lines@.take(0) =~= Seq::<String>::empty());
        assert(entry_views(entries@) =~= Seq::<EntryView>::empty());
        while i < lines.len()
            invariant
                i <= lines.len(),
                entry_views(entries@) == lines@.take(i as int).filter_map(line_reader()),
            decreases lines.len() - i,
        {
            let ghost earlier = entries@;
            assert(lines@.take(i + 1).drop_last() =~= lines@.take(i as int));
            assert(lines@.take(i + 1).last() == lines@[i as int]);
            match CalendarEntry::from_string(lines[i].as_str()) {
                Some(entry) => {
                    entries.push(entry);
                    assert(entry_views(entries@) =~= entry_views(earlier) + seq![entry@]);
                },
                None => {},
            }
            i += 1;
        }
        assert(lines@.take(lines.len() as int) =~= lines@);
        entries
    }

    /// Writes the entry as a line that `from_string` reads back.
    pub fn to_line(&self) -> (line: String)
        ensures
            line@ == serialize(self@),
    {
        proof {
            reveal_strlit(";");
            reveal_strlit(":");
        }
        let mut line = String::new();
        push_number_field(&mut line, "Year", self.year);
        push_number_field(&mut line, "Month", self.month);
        push_number_field(&mut line, "Day", self.day);
        let ghost dates = line@;
        push_quoted_field(&mut line, "Name", self.name.as_str());
        line.append(";");
        push_quoted_field(&mut line, "Color", self.color.as_str());
        line.append(";");
        line.append("ShowBefore");
        line.append(":");
        push_signed_decimal(&mut line, self.show_early);
        assert(":"@ =~= seq![':']);
        assert(";"@ =~= seq![';']);
        assert(line@ =~= dates + text_fields(self@));
        assert(line@ =~= serialize(self@));
        line
    }

    /// Describes the date: month, day and year, with a phrase in place of
    /// each part that is left open.
    pub fn describe_date(&self) -> (text: String)
        ensures
            text@ == date_description(self@),
    {
        proof {
            reveal_strlit("/");
        }
        let mut text = String::new();
        push_date_part(&mut text, self.month, "Every month!");
        text.append("/");
        push_date_part(&mut text, self.day, "Every day!");
        text.append("/");
        push_date_part(&mut text, self.year, "Every year!");
        assert("/"@ =~= seq!['/']);
        assert(text@ =~= date_description(self@));
        text
    }

    /// The line that shows the entry: its name and the description of its date.
    pub fn display_line(&self) -> (text: String)
        ensures
            text@ == display_text(self@),
    {
        let mut text = String::new();
        text.append(self.name.as_str());
        text.append(" - Date: ");
        let date = self.describe_date();
        text.append(date.as_str());
        assert(text@ =~= display_text(self@));
        text
    }
}

/// The key texts hold neither `:` nor `;`, and each names its field.
proof fn lemma_key_texts()
    ensures
        free_of("Year"@, ':') && free_of("Year"@, ';'),
        free_of("Month"@, ':') && free_of("Month"@, ';'),
        free_of("Day"@, ':') && free_of("Day"@, ';'),
        free_of("Name"@, ':') && free_of("Name"@, ';'),
        free_of("Color"@, ':') && free_of("Color"@, ';'),
        free_of("ShowBefore"@, ':') && free_of("ShowBefore"@, ';'),
        key_of("Year"@) == Some(FieldKey::Year),
        key_of("Month"@) == Some(FieldKey::Month),
        key_of("Day"@) == Some(FieldKey::Day),
        key_of("Name"@) == Some(FieldKey::Name),
        key_of("Color"@) == Some(FieldKey::Color),
        key_of("ShowBefore"@) == Some(FieldKey::ShowEarly),
{
    reveal_strlit("Year");
    reveal_strlit("Month");
    reveal_strlit("Day");
    reveal_strlit("Name");
    reveal_strlit("Color");
    reveal_strlit("ShowBefore");
    assert("Name"@[0] != "Year"@[0]);
    assert("Color"@[0] != "Month"@[0]);
}

/// A field that is followed by `;` is applied before the fields after it.
proof fn lemma_field_then_rest(acc: EntryView, field: Seq<char>, rest: Seq<char>)
    requires
        free_of(field, ';'),
    ensures
        apply_fields(acc, split(field + seq![';'] + rest, ';')) == match apply_field(acc, field) {
            Some(next) => apply_fields(next, split(rest, ';')),
            None => None,
        },
{
    lemma_split_joined(field, ';', rest);
    let fields = split(field + seq![';'] + rest, ';');
    assert(fields[0] == field);
    assert(fields.drop_first() =~= split(rest, ';'));
}

/// A line of one field is that field applied.
proof fn lemma_last_field(acc: EntryView, field: Seq<char>)
    requires
        free_of(field, ';'),
    ensures
        apply_fields(acc, split(field, ';')) == apply_field(acc, field),
{
    lemma_split_single(field, ';');
    let fields = seq![field];
    assert(fields.drop_first() =~= Seq::<Seq<char>>::empty());
    if let Some(next) = apply_field(acc, field) {
        assert(apply_fields(next, fields.drop_first()) == Some(next));
    }
}

/// A known key, `:` and a value set the field that the key names.
proof fn lemma_key_and_value(acc: EntryView, word: Seq<char>, key: FieldKey, value: Seq<char>)
    requires
        free_of(word, ':'),
        key_of(word) == Some(key),
    ensures
        apply_field(acc, word + seq![':'] + value) == Some(with_field(acc, key, value)),
{
    lemma_index_of_joined(word, ':', value);
}

/// A written year, month or day field sets its value; an omitted one changes nothing.
proof fn lemma_number_field_reads_back(
    acc: EntryView,
    word: Seq<char>,
    key: FieldKey,
    value: Option<u32>,
    rest: Seq<char>,
)
    requires
        free_of(word, ':'),
        free_of(word, ';'),
        key_of(word) == Some(key),
    ensures
        apply_fields(acc, split(number_field(word, value) + rest, ';')) == apply_fields(
            match value {
                Some(n) => with_field(acc, key, decimal(n as nat)),
                None => acc,
            },
            split(rest, ';'),
        ),
        value matches Some(n) ==> parse_u32(decimal(n as nat)) == Some(n),
{
    match value {
        Some(n) => {
            lemma_parse_u32_decimal(n);
            let digits = decimal(n as nat);
            let field = word + seq![':'] + digits;
            lemma_decimal_free_of(n as int, ';');
            assert(free_of(field, ';')) by {
                assert forall|i: int| 0 <= i < field.len() implies field[i] != ';' by {
                    if i < word.len() {
                        assert(field[i] == word[i]);
                    } else if i > word.len() {
                        assert(field[i] == digits[i - word.len() - 1]);
                    }
                }
            }
            assert(number_field(word, value) + rest =~= field + seq![';'] + rest);
            lemma_field_then_rest(acc, field, rest);
            lemma_key_and_value(acc, word, key, digits);
        },
        None => {
            assert(number_field(word, value) + rest =~= rest);
        },
    }
}

/// A written name or color field holds no `;` and sets the text it was written from.
proof fn lemma_quoted_field_reads_back(
    acc: EntryView,
    word: Seq<char>,
    key: FieldKey,
    text: Seq<char>,
)
    requires
        free_of(word, ':'),
        free_of(word, ';'),
        free_of(text, ';'),
        key_of(word) == Some(key),
    ensures
        free_of(quoted_field(word, text), ';'),
        apply_field(acc, quoted_field(word, text)) == Some(
            with_field(acc, key, seq!['"'] + text + seq!['"']),
        ),
        strip_quotes(seq!['"'] + text + seq!['"']) == text,
{
    let value = seq!['"'] + text + seq!['"'];
    let field = quoted_field(word, text);
    assert(field =~= word + seq![':'] + value);
    assert forall|i: int| 0 <= i < field.len() implies field[i] != ';' by {
        if i < word.len() {
            assert(field[i] == word[i]);
        } else if word.len() + 2 <= i < word.len() + 2 + text.len() {
            assert(field[i] == text[i - word.len() - 2]);
        }
    }
    lemma_key_and_value(acc, word, key, value);
    assert(value.subrange(1, value.len() - 1) =~= text);
}

/// A written `ShowBefore` field holds no `;` and sets the number it was written from.
proof fn lemma_show_early_field_reads_back(acc: EntryView, show_early: i64)
    ensures
        free_of(show_early_field(show_early), ';'),
        apply_field(acc, show_early_field(show_early)) == Some(EntryView { show_early, ..acc }),
{
    lemma_key_texts();
    let word = "ShowBefore"@;
    let digits = signed_decimal(show_early as int);
    let field = show_early_field(show_early);
    lemma_decimal_free_of(show_early as int, ';');
    assert forall|i: int| 0 <= i < field.len() implies field[i] != ';' by {
        if i < word.len() {
            assert(field[i] == word[i]);
        } else if i > word.len() {
            assert(field[i] == digits[i - word.len() - 1]);
        }
    }
    lemma_key_and_value(acc, word, FieldKey::ShowEarly, digits);
    lemma_parse_i64_signed_decimal(show_early);
}

/// The written `Name`, `Color` and `ShowBefore` fields set the name, the
/// color and the `show_early` that they were written from.
proof fn lemma_text_fields_read_back(acc: EntryView, e: EntryView)
    requires
        free_of(e.name, ';'),
        free_of(e.color, ';'),
    ensures
        apply_fields(acc, split(text_fields(e), ';')) == Some(
            EntryView { name: e.name, color: e.color, show_early: e.show_early, ..acc },
        ),
{
    let name = quoted_field("Name"@, e.name);
    let color = quoted_field("Color"@, e.color);
    let last = show_early_field(e.show_early);
    let named = EntryView { name: e.name, ..acc };
    let colored = EntryView { color: e.color, ..named };
    assert(apply_fields(acc, split(text_fields(e), ';')) == apply_fields(
        named,
        split(color + seq![';'] + last, ';'),
    )) by {
        lemma_key_texts();
        lemma_quoted_field_reads_back(acc, "Name"@, FieldKey::Name, e.name);
        lemma_field_then_rest(acc, name, color + seq![';'] + last);
    }
    assert(apply_fields(named, split(color + seq![';'] + last, ';')) == apply_fields(
        colored,
        split(last, ';'),
    )) by {
        lemma_key_texts();
        lemma_quoted_field_reads_back(named, "Color"@, FieldKey::Color, e.color);
        lemma_field_then_rest(named, color, last);
    }
    assert(apply_fields(colored, split(last, ';')) == Some(
        EntryView { show_early: e.show_early, ..colored },
    )) by {
        lemma_show_early_field_reads_back(colored, e.show_early);
        lemma_last_field(colored, last);
    }
}

/// Reading the line that an entry is written as gives the entry back,
/// provided that neither its name nor its color holds a `;`.
pub proof fn lemma_written_entry_reads_back(e: EntryView)
    requires
        free_of(e.name, ';'),
        free_of(e.color, ';'),
    ensures
        parse_line(serialize(e)) == Some(e),
{
    let after_day = text_fields(e);
    let after_month = number_field("Day"@, e.day) + after_day;
    let after_year = number_field("Month"@, e.month) + after_month;
    let blank = EntryView::blank();
    let with_year = EntryView { year: e.year, ..blank };
    let with_month = EntryView { month: e.month, ..with_year };
    let with_day = EntryView { day: e.day, ..with_month };
    assert(parse_line(serialize(e)) == apply_fields(with_year, split(after_year, ';'))) by {
        lemma_key_texts();
        lemma_number_field_reads_back(blank, "Year"@, FieldKey::Year, e.year, after_year);
    }
    assert(apply_fields(with_year, split(after_year, ';')) == apply_fields(
        with_month,
        split(after_month, ';'),
    )) by {
        lemma_key_texts();
        lemma_number_field_reads_back(with_year, "Month"@, FieldKey::Month, e.month, after_month);
    }
    assert(apply_fields(with_month, split(after_month, ';')) == apply_fields(
        with_day,
        split(after_day, ';'),
    )) by {
        lemma_key_texts();
        lemma_number_field_reads_back(with_month, "Day"@, FieldKey::Day, e.day, after_day);
    }
    lemma_text_fields_read_back(with_day, e);
}

/// A field without `;` puts no `;` into a name or a color.
proof fn lemma_field_brings_no_separator(acc: EntryView, field: Seq<char>)
    requires
        free_of(field, ';'),
        free_of(acc.name, ';'),
        free_of(acc.color, ';'),
    ensures
        apply_field(acc, field) matches Some(next) ==> free_of(next.name, ';') && free_of(
            next.color,
            ';',
        ),
{
    let colon = index_of(field, ':');
    if colon < field.len() {
        let value = field.skip((colon + 1) as int);
        let inner = strip_quotes(value);
        let skipped: int = if inner.len() < value.len() {
            1
        } else {
            0
        };
        assert forall|i: int| 0 <= i < inner.len() implies inner[i] != ';' by {
            assert(inner[i] == value[i + skipped]);
            assert(value[i + skipped] == field[colon + 1 + i + skipped]);
        }
    }
}

/// Fields without `;` leave a name and a color without `;`.
proof fn lemma_fields_bring_no_separator(acc: EntryView, fields: Seq<Seq<char>>)
    requires
        forall|i: int| 0 <= i < fields.len() ==> free_of(#[trigger] fields[i], ';'),
        free_of(acc.name, ';'),
        free_of(acc.color, ';'),
    ensures
        apply_fields(acc, fields) matches Some(e) ==> free_of(e.name, ';') && free_of(
            e.color,
            ';',
        ),
    decreases fields.len(),
{
    if fields.len() > 0 {
        lemma_field_brings_no_separator(acc, fields[0]);
        if let Some(next) = apply_field(acc, fields[0]) {
            let rest = fields.drop_first();
            assert forall|i: int| 0 <= i < rest.len() implies free_of(#[trigger] rest[i], ';') by {
                assert(rest[i] == fields[i + 1]);
            }
            lemma_fields_bring_no_separator(next, rest);
        }
    }
}

/// An entry that was read from a line can be written and read again, and
/// is then the same entry.
pub proof fn lemma_read_entry_reads_back(line: Seq<char>)
    ensures
        parse_line(line) matches Some(e) ==> parse_line(serialize(e)) == Some(e),
{
    if let Some(e) = parse_line(line) {
        lemma_split_pieces_are_free(line, ';');
        lemma_fields_bring_no_separator(EntryView::blank(), split(line, ';'));
        lemma_written_entry_reads_back(e);
    }
}

/// The description of a date depends on year, month and day alone.
pub proof fn lemma_description_follows_date(a: EntryView, b: EntryView)
    requires
        a.year == b.year,
        a.month == b.month,
        a.day == b.day,
    ensures
        date_description(a) == date_description(b),
{
}

} // verus!
