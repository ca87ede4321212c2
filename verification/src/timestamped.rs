//! The timestamped format: lines of the shape `TIMESTAMP - NAME: MESSAGE`.

use crate::pattern::{capture_groups, compile, pattern_groups, regex_groups};
use crate::text::{closes_sentence, lower_first, lowercase, trim, trimmed};
use crate::timestamp::{
    format_timestamp, formatted_instant, parse_timestamp, parsed_instant, Timestamp,
    TimestampError, TIMESTAMP_FORMAT,
};
use crate::turns::{
    closed_by, extended, joined, lemma_turn_count, lemma_turn_times, opened, speakers_alternate,
    turns_of, Mode, Record, Turn,
};
use vstd::prelude::*;
use vstd::string::*;

verus! {

/// The shape of a line: a timestamp of four, two and two digits for the
/// date and two, two and two for the time of day, then ` - `, the shortest
/// name that a colon and a space follow, and the message to the end of the
/// line. The three parts are the pattern's groups.
pub const LINE_PATTERN: &'static str = "(\\d{4}-\\d{2}-\\d{2}T\\d{2}:\\d{2}:\\d{2}) - (.+?): (.+)";

/// One matched line: when it was said, who spoke, and what was said.
#[derive(Debug)]
pub struct RawRecord {
    pub timestamp: Timestamp,
    pub name: String,
    pub message: String,
}

impl View for RawRecord {
    type V = Record;

    open spec fn view(&self) -> Record {
        Record { identity: self.name@, payload: self.message@, time: Some(self.timestamp) }
    }
}

impl DeepView for RawRecord {
    type V = Record;

    open spec fn deep_view(&self) -> Record {
        self@
    }
}

/// One speaker's turn: the messages of a run of lines, joined. It ends
/// when the next speaker begins; the last turn of an input has no end.
#[derive(Clone, Debug)]
pub struct Conversation {
    pub start_time: Timestamp,
    pub end_time: Option<Timestamp>,
    pub name: String,
    pub message: String,
}

impl View for Conversation {
    type V = Turn;

    open spec fn view(&self) -> Turn {
        Turn {
            identity: self.name@,
            payload: self.message@,
            start_time: Some(self.start_time),
            end_time: self.end_time,
        }
    }
}

impl DeepView for Conversation {
    type V = Turn;

    open spec fn deep_view(&self) -> Turn {
        self@
    }
}

/// The three parts of a line, taken from the groups of a match: timestamp,
/// name and message. `None` where nothing matched.
pub open spec fn message_of(groups: Option<Seq<Seq<char>>>) -> Option<
    (Seq<char>, Seq<char>, Seq<char>),
> {
    match groups {
        None => None,
        Some(g) => if g.len() == 4 {
            Some((g[1], g[2], g[3]))
        } else {
            None
        },
    }
}

/// The record that a line holds. `None` for a line that does not have the
/// shape, and for one whose timestamp names no date and time.
pub open spec fn record_of(line: Seq<char>) -> Option<Record> {
    match message_of(pattern_groups(LINE_PATTERN@, trimmed(line))) {
        None => None,
        Some((stamp, name, message)) => match parsed_instant(stamp, TIMESTAMP_FORMAT@) {
            None => None,
            Some(t) => Some(Record { identity: name, payload: message, time: Some(t) }),
        },
    }
}

/// The timestamp of a line that has the shape but whose timestamp names
/// no date and time. `None` for every other line.
pub open spec fn rejected_in(line: Seq<char>) -> Option<Seq<char>> {
    match message_of(pattern_groups(LINE_PATTERN@, trimmed(line))) {
        None => None,
        Some((stamp, _, _)) => if parsed_instant(stamp, TIMESTAMP_FORMAT@) is None {
            Some(stamp)
        } else {
            None
        },
    }
}

/// The timestamps that were refused in the lines, in order.
pub open spec fn rejected_of(lines: Seq<Seq<char>>) -> Seq<Seq<char>>
    decreases lines.len(),
{
    if lines.len() == 0 {
        Seq::empty()
    } else {
        match rejected_in(lines.last()) {
            None => rejected_of(lines.drop_last()),
            Some(stamp) => rejected_of(lines.drop_last()).push(stamp),
        }
    }
}

/// The texts that the errors were raised for.
pub open spec fn texts_of(errors: Seq<TimestampError>) -> Seq<Seq<char>> {
    errors.map_values(|e: TimestampError| e.text@)
}

/// The records that the lines hold, in order.
pub open spec fn records_of(lines: Seq<Seq<char>>) -> Seq<Record>
    decreases lines.len(),
{
    if lines.len() == 0 {
        Seq::empty()
    } else {
        match record_of(lines.last()) {
            None => records_of(lines.drop_last()),
            Some(r) => records_of(lines.drop_last()).push(r),
        }
    }
}

/// Takes timestamp, name and message out of the groups of a match.
pub fn message_from_groups(groups: Option<Vec<String>>) -> (r: Option<(String, String, String)>)
    ensures
        r.deep_view() == message_of(groups.deep_view()),
{
    match groups {
        None => None,
        Some(mut g) => {
            if g.len() != 4 {
                return None;
            }
            let ghost all = g.deep_view();
            let message = g.pop().unwrap();
            let name = g.pop().unwrap();
            let stamp = g.pop().unwrap();
            assert(stamp@ == all[1] && name@ == all[2] && message@ == all[3]);
            Some((stamp, name, message))
        },
    }
}

/// The line extractor: it owns the compiled shape of a line, made once and
/// never changed, and reads lines with it.
pub struct LineExtractor {
    shape: Option<regex::Regex>,
}

impl LineExtractor {
    /// What the extractor holds finds in every text what [`LINE_PATTERN`]
    /// finds there; it holds nothing only if that pattern cannot be compiled.
    #[verifier::type_invariant]
    pub closed spec fn holds_line_pattern(self) -> bool {
        match self.shape {
            Some(re) => forall|text: Seq<char>| #[trigger]
                regex_groups(re, text) == pattern_groups(LINE_PATTERN@, text),
            None => forall|text: Seq<char>| (#[trigger] pattern_groups(LINE_PATTERN@, text)) is None,
        }
    }

    /// Compiles [`LINE_PATTERN`].
    pub fn new() -> (extractor: LineExtractor)
        ensures
            extractor.holds_line_pattern(),
    {
        LineExtractor { shape: compile(LINE_PATTERN) }
    }

    /// Splits a line of the shape `TIMESTAMP - NAME: MESSAGE` into its three
    /// parts, whitespace around the line aside. `None` for a line of another
    /// shape.
    pub fn parse_message(&self, input: &str) -> (r: Option<(String, String, String)>)
        ensures
            r.deep_view() == message_of(pattern_groups(LINE_PATTERN@, trimmed(input@))),
    {
        proof {
            use_type_invariant(self);
        }
        match &self.shape {
            Some(re) => message_from_groups(capture_groups(re, trim(input))),
            None => None,
        }
    }

    /// Reads one line. A line of another shape holds no record, which is no
    /// error; a line of the right shape whose timestamp names no date and
    /// time is one.
    pub fn extract_record(&self, line: &str) -> (r: Result<Option<RawRecord>, TimestampError>)
        ensures
            match r {
                Ok(found) => found.deep_view() == record_of(line@) && rejected_in(line@) is None,
                Err(e) => record_of(line@) is None && rejected_in(line@) == Some(e.text@),
            },
    {
        match self.parse_message(line) {
            None => Ok(None),
            Some((stamp, name, message)) => match parse_timestamp(stamp.as_str()) {
                Ok(timestamp) => Ok(Some(RawRecord { timestamp, name, message })),
                Err(e) => Err(e),
            },
        }
    }
}

/// Splits a line of the shape `TIMESTAMP - NAME: MESSAGE` into its three
/// parts, whitespace around the line aside. `None` for a line of another
/// shape. The shape is compiled anew on each call: for more than a line or
/// two, make a [`LineExtractor`] and keep it.
pub fn parse_message(input: &str) -> (r: Option<(String, String, String)>)
    ensures
        r.deep_view() == message_of(pattern_groups(LINE_PATTERN@, trimmed(input@))),
{
    LineExtractor::new().parse_message(input)
}

/// `s` with its first character in lowercase.
pub fn to_lowercase_first(s: &str) -> (r: String)
    ensures
        r@ == lower_first(s@),
{
    let n = s.unicode_len();
    if n == 0 {
        String::new()
    } else {
        let head = lowercase(s.get_char(0));
        assert(s@.drop_first() =~= s@.subrange(1, n as int));
        head.concat(s.substring_char(1, n))
    }
}

/// Folds each run of records of one speaker into a single turn. The
/// messages of a run are joined by one space each; a message that joins is
/// kept as it is after a sentence that a period ends, and begins in
/// lowercase otherwise. A turn starts at the time of its first record and
/// ends at the time of the record that opens the next turn.
pub fn merge_records(records: Vec<RawRecord>) -> (turns: Vec<Conversation>)
    ensures
        turns.deep_view() == turns_of(Mode::Timestamped, records.deep_view()),
        turns.len() <= records.len(),
        turns.len() == records.len() <==> speakers_alternate(records.deep_view()),
        forall|i: int|
            0 <= i < turns.len() - 1 ==> (#[trigger] turns[i]).end_time == Some(
                turns[i + 1].start_time,
            ),
        turns.len() > 0 ==> turns[turns.len() - 1].end_time is None,
{
    let ghost all = records.deep_view();
    let mut merged: Vec<Conversation> = Vec::new();
    assert(all.take(0) =~= Seq::<Record>::empty());
    assert(merged.deep_view() =~= Seq::<Turn>::empty());
    for record in it: records
        invariant
            it.seq().len() == all.len(),
            forall|k: int| 0 <= k < all.len() ==> (#[trigger] it.seq()[k])@ == all[k],
            merged.deep_view() == turns_of(Mode::Timestamped, all.take(it.index() as int)),
    {
        let ghost k = it.index() as int;
        let ghost before = merged.deep_view();
        let ghost after = turns_of(Mode::Timestamped, all.take(k + 1));
        proof {
            assert(all.take(k + 1).drop_last() =~= all.take(k));
            assert(all.take(k + 1).last() == record@);
        }
        let n = merged.len();
        if n == 0 {
            let opening = Conversation {
                start_time: record.timestamp,
                end_time: None,
                name: record.name,
                message: record.message,
            };
            merged.push(opening);
            assert(merged.deep_view() =~= after);
        } else {
            let mut last = merged.pop().unwrap();
            if last.name == record.name {
                if closes_sentence(last.message.as_str()) {
                    last.message.push(' ');
                    last.message.append(record.message.as_str());
                } else {
                    let next = to_lowercase_first(record.message.as_str());
                    last.message.push(' ');
                    last.message.append(next.as_str());
                }
                merged.push(last);
                proof {
                    assert(last@.payload =~= joined(
                        Mode::Timestamped,
                        before.last().payload,
                        record@.payload,
                    ));
                    assert(last@ == extended(Mode::Timestamped, before.last(), record@));
                    assert(merged.deep_view() =~= before.update(n - 1, last@));
                    assert(merged.deep_view() =~= after);
                }
            } else {
                last.end_time = Some(record.timestamp);
                let opening = Conversation {
                    start_time: record.timestamp,
                    end_time: None,
                    name: record.name,
                    message: record.message,
                };
                merged.push(last);
                merged.push(opening);
                proof {
                    assert(last@ == closed_by(before.last(), record@));
                    assert(opening@ == opened(record@));
                    assert(merged.deep_view() =~= before.update(n - 1, last@).push(opening@));
                    assert(merged.deep_view() =~= after);
                }
            }
        }
    }
    proof {
        assert(all.take(all.len() as int) =~= all);
        lemma_turn_count(Mode::Timestamped, all);
        lemma_turn_times(Mode::Timestamped, all);
        let made = merged.deep_view();
        assert forall|i: int| 0 <= i < merged.len() - 1 implies (#[trigger] merged[i]).end_time
            == Some(merged[i + 1].start_time) by {
            assert(made[i].end_time == made[i + 1].start_time);
        }
        if merged.len() > 0 {
            assert(made.last() == merged[merged.len() - 1]@);
        }
    }
    merged
}

/// What the lines of a transcript hold: the records, and an error for each
/// line that was left out for its timestamp.
#[derive(Debug)]
pub struct Extraction {
    pub records: Vec<RawRecord>,
    pub rejected: Vec<TimestampError>,
}

/// Reads the lines of a transcript. Lines of another shape are passed over
/// in silence; a line of the right shape whose timestamp names no date and
/// time is left out of the records and listed among the rejected.
pub fn extract_records(lines: &Vec<String>) -> (found: Extraction)
    ensures
        found.records.deep_view() == records_of(lines.deep_view()),
        texts_of(found.rejected@) == rejected_of(lines.deep_view()),
{
    let ghost all = lines.deep_view();
    let extractor = LineExtractor::new();
    let mut records: Vec<RawRecord> = Vec::new();
    let mut rejected: Vec<TimestampError> = Vec::new();
    assert(all.take(0) =~= Seq::<Seq<char>>::empty());
    assert(records.deep_view() =~= Seq::<Record>::empty());
    assert(texts_of(rejected@) =~= Seq::<Seq<char>>::empty());
    let n = lines.len();
    let mut i: usize = 0;
    while i < n
        invariant
            i <= n == lines@.len(),
            all == lines.deep_view(),
            records.deep_view() == records_of(all.take(i as int)),
            texts_of(rejected@) == rejected_of(all.take(i as int)),
        decreases n - i,
    {
        let ghost before = records.deep_view();
        let ghost refused = texts_of(rejected@);
        proof {
            assert(all.take(i as int + 1).drop_last() =~= all.take(i as int));
            assert(all.take(i as int + 1).last() == lines@[i as int]@);
        }
        match extractor.extract_record(lines[i].as_str()) {
            Ok(Some(record)) => {
                records.push(record);
                assert(records.deep_view() =~= before.push(record@));
            },
            Ok(None) => {},
            Err(e) => {
                rejected.push(e);
                assert(texts_of(rejected@) =~= refused.push(e.text@));
            },
        }
        i += 1;
    }
    assert(all.take(n as int) =~= all);
    Extraction { records, rejected }
}

/// Reads the lines of a transcript and folds them into turns. Lines that
/// hold no record are passed over.
pub fn parse_conversations(lines: &Vec<String>) -> (turns: Vec<Conversation>)
    ensures
        turns.deep_view() == turns_of(Mode::Timestamped, records_of(lines.deep_view())),
{
    merge_records(extract_records(lines).records)
}

/// One row of the table.
pub open spec fn row_of(turn: Turn) -> Seq<char> {
    "| "@ + (match turn.start_time {
        Some(t) => formatted_instant(t, TIMESTAMP_FORMAT@),
        None => Seq::empty(),
    }) + " | "@ + turn.identity + " | "@ + turn.payload + " |\n"@
}

/// The rows of the table, one for each turn.
pub open spec fn rows_of(turns: Seq<Turn>) -> Seq<char>
    decreases turns.len(),
{
    if turns.len() == 0 {
        Seq::empty()
    } else {
        rows_of(turns.drop_last()) + row_of(turns.last())
    }
}

/// The table: the header, the separator and the rows.
pub open spec fn table_of(turns: Seq<Turn>) -> Seq<char> {
    "| Start Time | Name | Message |\n"@ + "|------------|------|--------|\n"@ + rows_of(turns)
}

/// The turns as a table of three columns, start time, name and message,
/// one row for each turn under a header and a separator. Names and messages
/// stand in it as they are.
pub fn to_markdown_table(conversations: &[Conversation]) -> (table: String)
    ensures
        table@ == table_of(conversations.deep_view()),
{
    let ghost all = conversations.deep_view();
    let mut out = String::new();
    out.append("| Start Time | Name | Message |\n");
    out.append("|------------|------|--------|\n");
    let ghost head = out@;
    assert(head =~= "| Start Time | Name | Message |\n"@ + "|------------|------|--------|\n"@);
    assert(head + rows_of(all.take(0)) =~= head);
    let n = conversations.len();
    let mut i: usize = 0;
    while i < n
        invariant
            i <= n == conversations@.len(),
            all == conversations.deep_view(),
            out@ == head + rows_of(all.take(i as int)),
        decreases n - i,
    {
        let ghost before = out@;
        proof {
            assert(all.take(i as int + 1).drop_last() =~= all.take(i as int));
            assert(all.take(i as int + 1).last() == conversations@[i as int]@);
        }
        let stamp = format_timestamp(conversations[i].start_time);
        out.append("| ");
        out.append(stamp.as_str());
        out.append(" | ");
        out.append(conversations[i].name.as_str());
        out.append(" | ");
        out.append(conversations[i].message.as_str());
        out.append(" |\n");
        assert(out@ =~= before + row_of(conversations@[i as int]@));
        assert(out@ =~= head + rows_of(all.take(i as int + 1)));
        i += 1;
    }
    assert(all.take(n as int) =~= all);
    out
}

} // verus!
