//! The tagged format: a loosely structured dump in which lines that begin
//! with `speaker:` or `text:` (the key bare or in double quotes) carry a
//! double-quoted value. Everything else in the input is inert.

use crate::quoted::{quoted, scan_quoted};
use crate::text::{
    chars_of, closes_sentence, lower_first, lowercase, trim_bounds, trimmed, upper_first, uppercase,
};
use crate::turns::{
    closed_by, extended, joined, lemma_turn_count, opened, speakers_alternate, turns_of, Mode,
    Record, Turn,
};
use vstd::prelude::*;
use vstd::string::*;

verus! {

/// One utterance: who spoke, and what was said.
#[derive(Debug)]
pub struct Entry {
    pub speaker: String,
    pub text: String,
}

impl View for Entry {
    type V = Record;

    /// An entry is a record without a time.
    open spec fn view(&self) -> Record {
        Record { identity: self.speaker@, payload: self.text@, time: None }
    }
}

impl DeepView for Entry {
    type V = Record;

    open spec fn deep_view(&self) -> Record {
        self@
    }
}

/// Which of the two keys a line carries.
#[derive(Clone, Copy, Debug, PartialEq, Eq, Structural)]
pub enum Tag {
    Speaker,
    Text,
}

/// What follows `prefix` in `s`, where `s` begins with it.
pub open spec fn after_prefix(s: Seq<char>, prefix: Seq<char>) -> Option<Seq<char>> {
    if prefix.is_prefix_of(s) {
        Some(s.skip(prefix.len() as int))
    } else {
        None
    }
}

/// The key that the trimmed line `s` begins with, and what follows it. The
/// four spellings are tried in a fixed order and the first that fits wins.
pub open spec fn keyed(s: Seq<char>) -> Option<(Tag, Seq<char>)> {
    if after_prefix(s, "speaker:"@) is Some {
        Some((Tag::Speaker, after_prefix(s, "speaker:"@)->0))
    } else if after_prefix(s, "\"speaker\":"@) is Some {
        Some((Tag::Speaker, after_prefix(s, "\"speaker\":"@)->0))
    } else if after_prefix(s, "text:"@) is Some {
        Some((Tag::Text, after_prefix(s, "text:"@)->0))
    } else if after_prefix(s, "\"text\":"@) is Some {
        Some((Tag::Text, after_prefix(s, "\"text\":"@)->0))
    } else {
        None
    }
}

/// The field that one line holds: its key and the content of its quoted
/// value. `None` for a line without a key, without an opening quote after
/// the key, or without a closing quote.
pub open spec fn field_of(line: Seq<char>) -> Option<(Tag, Seq<char>)> {
    match keyed(trimmed(line)) {
        None => None,
        Some((tag, rest)) => {
            let value = trimmed(rest);
            if value.len() > 0 && value[0] == '"' {
                match quoted(value.skip(1)) {
                    None => None,
                    Some((content, _)) => Some((tag, content)),
                }
            } else {
                None
            }
        },
    }
}

/// The lines of `s`: the pieces between newline characters. A text of `n`
/// newlines has `n + 1` lines, some of them possibly empty.
pub open spec fn lines_of(s: Seq<char>) -> Seq<Seq<char>>
    decreases s.len(),
{
    if s.len() == 0 {
        seq![Seq::empty()]
    } else {
        let before = lines_of(s.drop_last());
        if s.last() == '\n' {
            before.push(Seq::empty())
        } else {
            before.drop_last().push(before.last().push(s.last()))
        }
    }
}

/// The lines put together again, a newline between each two.
pub open spec fn rejoined(lines: Seq<Seq<char>>) -> Seq<char>
    decreases lines.len(),
{
    if lines.len() == 0 {
        Seq::empty()
    } else if lines.len() == 1 {
        lines[0]
    } else {
        rejoined(lines.drop_last()) + seq!['\n'] + lines.last()
    }
}

/// The lines of a text are what stands between its newlines: no line
/// holds a newline, and the lines with a newline between each two are the
/// text again.
pub proof fn lemma_lines_split_at_newlines(s: Seq<char>)
    ensures
        lines_of(s).len() >= 1,
        forall|i: int, j: int|
            0 <= i < lines_of(s).len() && 0 <= j < lines_of(s)[i].len() ==> #[trigger] lines_of(
                s,
            )[i][j] != '\n',
        rejoined(lines_of(s)) == s,
    decreases s.len(),
{
    if s.len() == 0 {
        assert(rejoined(lines_of(s)) =~= s);
    } else {
        lemma_lines_split_at_newlines(s.drop_last());
        let before = lines_of(s.drop_last());
        let lines = lines_of(s);
        if s.last() == '\n' {
            assert(lines.drop_last() =~= before);
            assert(rejoined(lines) =~= s);
        } else {
            assert(lines.drop_last() =~= before.drop_last());
            assert(lines.last() == before.last().push(s.last()));
            if before.len() > 1 {
                assert(rejoined(lines) =~= rejoined(before).push(s.last()));
            }
            assert(rejoined(lines) =~= s);
            assert forall|i: int, j: int|
                0 <= i < lines.len() && 0 <= j < lines[i].len() implies #[trigger] lines[i][j]
                != '\n' by {
                if i < lines.len() - 1 {
                    assert(lines[i][j] == before[i][j]);
                } else if j < before.last().len() {
                    assert(lines[i][j] == before[i][j]);
                }
            }
        }
    }
}

/// The state of the extractor between two lines: the speaker that waits
/// for its text, and the entries made so far.
pub ghost struct Pairing {
    pub pending: Option<Seq<char>>,
    pub entries: Seq<Record>,
}

/// One step of the extractor. A speaker replaces whatever was waiting. A
/// text takes the waiting speaker, if there is one, and leaves none behind;
/// without one it is dropped.
pub open spec fn paired_with(state: Pairing, field: Option<(Tag, Seq<char>)>) -> Pairing {
    match field {
        None => state,
        Some((Tag::Speaker, value)) => Pairing { pending: Some(value), entries: state.entries },
        Some((Tag::Text, value)) => match state.pending {
            None => state,
            Some(speaker) => Pairing {
                pending: None,
                entries: state.entries.push(Record { identity: speaker, payload: value, time: None }),
            },
        },
    }
}

/// The extractor's state after the given lines.
pub open spec fn paired(lines: Seq<Seq<char>>) -> Pairing
    decreases lines.len(),
{
    if lines.len() == 0 {
        Pairing { pending: None, entries: Seq::empty() }
    } else {
        paired_with(paired(lines.drop_last()), field_of(lines.last()))
    }
}

/// The entries that the input holds, in order.
pub open spec fn entries_of(input: Seq<char>) -> Seq<Record> {
    paired(lines_of(input)).entries
}

/// Where `v[lo..hi]` begins with `prefix`, the place right after it.
fn skip_prefix(v: &Vec<char>, lo: usize, hi: usize, prefix: &str) -> (r: Option<usize>)
    requires
        lo <= hi <= v.len(),
    ensures
        match r {
            None => after_prefix(v@.subrange(lo as int, hi as int), prefix@) is None,
            Some(next) => lo <= next <= hi && next == lo + prefix@.len() && after_prefix(
                v@.subrange(lo as int, hi as int),
                prefix@,
            ) == Some(v@.subrange(next as int, hi as int)),
        },
{
    let n = prefix.unicode_len();
    if n > hi - lo {
        return None;
    }
    let ghost s = v@.subrange(lo as int, hi as int);
    let mut j: usize = 0;
    while j < n
        invariant
            j <= n <= hi - lo,
            lo <= hi <= v.len(),
            n == prefix@.len(),
            s == v@.subrange(lo as int, hi as int),
            forall|k: int| 0 <= k < j ==> s[k] == prefix@[k],
        decreases n - j,
    {
        if v[lo + j] != prefix.get_char(j) {
            assert(s.subrange(0, n as int)[j as int] != prefix@[j as int]);
            return None;
        }
        j += 1;
    }
    assert(prefix@ =~= s.subrange(0, n as int));
    assert(s.skip(n as int) =~= v@.subrange(lo + n, hi as int));
    Some(lo + n)
}

/// The key that `v[lo..hi]` begins with, and the place right after it.
fn read_key(v: &Vec<char>, lo: usize, hi: usize) -> (r: Option<(Tag, usize)>)
    requires
        lo <= hi <= v.len(),
    ensures
        match r {
            None => keyed(v@.subrange(lo as int, hi as int)) is None,
            Some((tag, next)) => lo <= next <= hi && keyed(v@.subrange(lo as int, hi as int))
                == Some((tag, v@.subrange(next as int, hi as int))),
        },
{
    if let Some(next) = skip_prefix(v, lo, hi, "speaker:") {
        Some((Tag::Speaker, next))
    } else if let Some(next) = skip_prefix(v, lo, hi, "\"speaker\":") {
        Some((Tag::Speaker, next))
    } else if let Some(next) = skip_prefix(v, lo, hi, "text:") {
        Some((Tag::Text, next))
    } else if let Some(next) = skip_prefix(v, lo, hi, "\"text\":") {
        Some((Tag::Text, next))
    } else {
        None
    }
}

/// A field as plain text.
spec fn field_view(field: Option<(Tag, String)>) -> Option<(Tag, Seq<char>)> {
    match field {
        None => None,
        Some((tag, value)) => Some((tag, value@)),
    }
}

/// The field that the line `v[lo..hi]` holds.
fn read_field(v: &Vec<char>, lo: usize, hi: usize) -> (r: Option<(Tag, String)>)
    requires
        lo <= hi <= v.len(),
    ensures
        field_view(r) == field_of(v@.subrange(lo as int, hi as int)),
{
    let (a, b) = trim_bounds(v, lo, hi);
    match read_key(v, a, b) {
        None => None,
        Some((tag, next)) => {
            let (c, d) = trim_bounds(v, next, b);
            if c < d && v[c] == '"' {
                assert(v@.subrange(c as int, d as int).skip(1) =~= v@.subrange(
                    c as int + 1,
                    d as int,
                ));
                match scan_quoted(v, c + 1, d) {
                    None => None,
                    Some((content, _)) => Some((tag, content)),
                }
            } else {
                None
            }
        },
    }
}

/// Takes one field into the extractor's state.
fn pair_field(field: Option<(Tag, String)>, pending: &mut Option<String>, entries: &mut Vec<Entry>)
    ensures
        (Pairing { pending: final(pending).deep_view(), entries: final(entries).deep_view() })
            == paired_with(
            Pairing { pending: old(pending).deep_view(), entries: old(entries).deep_view() },
            field_view(field),
        ),
{
    match field {
        None => {},
        Some((Tag::Speaker, value)) => {
            *pending = Some(value);
        },
        Some((Tag::Text, value)) => {
            if let Some(speaker) = pending.take() {
                let ghost before = entries.deep_view();
                let entry = Entry { speaker, text: value };
                entries.push(entry);
                assert(entries.deep_view() =~= before.push(entry@));
            }
        },
    }
}

/// Reads the entries out of a dump in the tagged format. Each `text` line
/// is paired with the `speaker` line last seen and uses it up: a second
/// `text` line after the same speaker is dropped, and so is one that no
/// speaker precedes. Lines that hold no field are passed over.
pub fn parse_entries(input: &str) -> (entries: Vec<Entry>)
    ensures
        entries.deep_view() == entries_of(input@),
{
    let v = chars_of(input);
    let n = v.len();
    let mut entries: Vec<Entry> = Vec::new();
    let mut pending: Option<String> = None;
    let mut start: usize = 0;
    let mut i: usize = 0;
    let ghost mut done: Seq<Seq<char>> = Seq::empty();
    proof {
        assert(v@.take(0) =~= Seq::<char>::empty());
        assert(v@.subrange(0, 0) =~= Seq::<char>::empty());
        assert(lines_of(v@.take(0)) =~= done.push(v@.subrange(0, 0)));
        assert(entries.deep_view() =~= Seq::<Record>::empty());
    }
    while i < n
        invariant
            start <= i <= n == v.len(),
            lines_of(v@.take(i as int)) == done.push(v@.subrange(start as int, i as int)),
            paired(done) == (Pairing {
                pending: pending.deep_view(),
                entries: entries.deep_view(),
            }),
        decreases n - i,
    {
        proof {
            let upto = v@.take(i as int + 1);
            assert(upto.drop_last() =~= v@.take(i as int));
            assert(upto.last() == v@[i as int]);
        }
        if v[i] == '\n' {
            let field = read_field(&v, start, i);
            pair_field(field, &mut pending, &mut entries);
            proof {
                let line = v@.subrange(start as int, i as int);
                assert(done.push(line).drop_last() =~= done);
                done = done.push(line);
                assert(v@.subrange(i as int + 1, i as int + 1) =~= Seq::<char>::empty());
            }
            start = i + 1;
        } else {
            proof {
                let line = v@.subrange(start as int, i as int);
                assert(done.push(line).drop_last() =~= done);
                assert(line.push(v@[i as int]) =~= v@.subrange(start as int, i as int + 1));
            }
        }
        i += 1;
    }
    let field = read_field(&v, start, n);
    pair_field(field, &mut pending, &mut entries);
    proof {
        let line = v@.subrange(start as int, n as int);
        assert(v@.take(n as int) =~= v@);
        assert(done.push(line).drop_last() =~= done);
    }
    entries
}

/// `s` with its first character in lowercase.
pub fn make_lowercase_first(s: &str) -> (r: String)
    ensures
        r@ == lower_first(s@),
{
    let n = s.unicode_len();
    if n == 0 {
        String::new()
    } else {
        let head = lowercase(s.get_char(0));
        assert(s@.drop_first() =~= s@.subrange(1, n as int));
        head.concat(s.substring_char(1, n))
    }
}

/// `s` with its first character in uppercase.
pub fn make_uppercase_first(s: &str) -> (r: String)
    ensures
        r@ == upper_first(s@),
{
    let n = s.unicode_len();
    if n == 0 {
        String::new()
    } else {
        let head = uppercase(s.get_char(0));
        assert(s@.drop_first() =~= s@.subrange(1, n as int));
        head.concat(s.substring_char(1, n))
    }
}

/// The entries as turns: none of them carries a time.
pub open spec fn as_turns(entries: Seq<Record>) -> Seq<Turn> {
    entries.map_values(|r: Record| opened(r))
}

/// Folds each run of entries of one speaker into a single entry. The texts
/// of a run are joined by one space each; a text that joins begins in
/// uppercase after a sentence that a period ends and in lowercase
/// otherwise.
pub fn merge_entries(entries: Vec<Entry>) -> (merged: Vec<Entry>)
    ensures
        as_turns(merged.deep_view()) == turns_of(Mode::Tagged, entries.deep_view()),
        merged.len() <= entries.len(),
        merged.len() == entries.len() <==> speakers_alternate(entries.deep_view()),
{
    let ghost all = entries.deep_view();
    let mut merged: Vec<Entry> = Vec::new();
    assert(all.take(0) =~= Seq::<Record>::empty());
    assert(as_turns(merged.deep_view()) =~= Seq::<Turn>::empty());
    for entry in it: entries
        invariant
            it.seq().len() == all.len(),
            forall|k: int| 0 <= k < all.len() ==> (#[trigger] it.seq()[k])@ == all[k],
            as_turns(merged.deep_view()) == turns_of(Mode::Tagged, all.take(it.index() as int)),
    {
        let ghost k = it.index() as int;
        let ghost before = merged.deep_view();
        let ghost turns = turns_of(Mode::Tagged, all.take(k));
        proof {
            assert(all.take(k + 1).drop_last() =~= all.take(k));
            assert(all.take(k + 1).last() == entry@);
        }
        let n = merged.len();
        if n > 0 && merged[n - 1].speaker == entry.speaker {
            let mut last = merged.pop().unwrap();
            let next = if closes_sentence(last.text.as_str()) {
                make_uppercase_first(entry.text.as_str())
            } else {
                make_lowercase_first(entry.text.as_str())
            };
            last.text.push(' ');
            last.text.append(next.as_str());
            merged.push(last);
            proof {
                let after = turns_of(Mode::Tagged, all.take(k + 1));
                let current = before.last();
                assert(turns.len() == n);
                assert(turns.last() == opened(current));
                assert(last@.payload =~= joined(Mode::Tagged, current.payload, entry@.payload));
                assert(opened(last@) == extended(Mode::Tagged, turns.last(), entry@));
                assert(merged.deep_view() =~= before.update(n - 1, last@));
                assert(after == turns.update(n - 1, opened(last@)));
                assert(as_turns(merged.deep_view()) =~= after);
            }
        } else {
            merged.push(entry);
            proof {
                let after = turns_of(Mode::Tagged, all.take(k + 1));
                assert(turns.len() == n);
                assert(merged.deep_view() =~= before.push(entry@));
                if n > 0 {
                    assert(turns.last() == opened(before.last()));
                    assert(turns.last().identity != entry@.identity);
                    assert(closed_by(turns.last(), entry@) == turns.last());
                    assert(turns.update(n - 1, turns.last()) =~= turns);
                    assert(after == turns.push(opened(entry@)));
                } else {
                    assert(after == seq![opened(entry@)]);
                }
                assert(as_turns(merged.deep_view()) =~= after);
            }
        }
    }
    proof {
        assert(all.take(all.len() as int) =~= all);
        lemma_turn_count(Mode::Tagged, all);
    }
    merged
}

/// What one character becomes in a table cell: a pipe gets a backslash in
/// front, a newline becomes a space.
pub open spec fn escaped_char(c: char) -> Seq<char> {
    if c == '|' {
        seq!['\\', '|']
    } else if c == '\n' {
        seq![' ']
    } else {
        seq![c]
    }
}

/// `s` as it stands in a table cell.
pub open spec fn escaped(s: Seq<char>) -> Seq<char>
    decreases s.len(),
{
    if s.len() == 0 {
        Seq::empty()
    } else {
        escaped(s.drop_last()) + escaped_char(s.last())
    }
}

/// One row of the table.
pub open spec fn row_of(turn: Turn) -> Seq<char> {
    "| "@ + escaped(turn.identity) + " | "@ + escaped(turn.payload) + " |\n"@
}

/// The rows of the table, one for each turn.
pub open spec fn rows_of(turns: Seq<Turn>) -> Seq<char>
    decreases turns.len(),
{
    if turns.len() == 0 {
        Seq::empty()
    } else {
        rows_of(turns.drop_last()) + row_of(turns.last())
    }
}

/// The table: the header, the separator and the rows.
pub open spec fn table_of(turns: Seq<Turn>) -> Seq<char> {
    "| Speaker | Text |\n"@ + "|---------|------|\n"@ + rows_of(turns)
}

/// Appends `s` to `out` as it stands in a table cell.
fn push_escaped(out: &mut String, s: &str)
    ensures
        final(out)@ == old(out)@ + escaped(s@),
{
    let ghost start = out@;
    assert(start + escaped(s@.take(0)) =~= start);
    for c in it: s.chars()
        invariant
            it.seq() == s@,
            out@ == start + escaped(s@.take(it.index() as int)),
    {
        let ghost k = it.index() as int;
        proof {
            assert(s@.take(k + 1).drop_last() =~= s@.take(k));
            assert(s@.take(k + 1).last() == c);
        }
        if c == '|' {
            out.push('\\');
            out.push('|');
        } else if c == '\n' {
            out.push(' ');
        } else {
            out.push(c);
        }
        assert(out@ =~= start + escaped(s@.take(k + 1)));
    }
    assert(s@.take(s@.len() as int) =~= s@);
}

/// `s` as it stands in a table cell: each pipe with a backslash in front,
/// each newline replaced by a space.
pub fn escape_md(s: &str) -> (r: String)
    ensures
        r@ == escaped(s@),
{
    let mut r = String::new();
    push_escaped(&mut r, s);
    assert(Seq::<char>::empty() + escaped(s@) =~= escaped(s@));
    r
}

/// The entries as a table of two columns, speaker and text, one row for
/// each entry under a header and a separator.
pub fn to_markdown_table(entries: &[Entry]) -> (table: String)
    ensures
        table@ == table_of(as_turns(entries.deep_view())),
{
    let ghost all = as_turns(entries.deep_view());
    let mut out = String::new();
    out.append("| Speaker | Text |\n");
    out.append("|---------|------|\n");
    let ghost head = out@;
    assert(head =~= "| Speaker | Text |\n"@ + "|---------|------|\n"@);
    assert(head + rows_of(all.take(0)) =~= head);
    let n = entries.len();
    let mut i: usize = 0;
    while i < n
        invariant
            i <= n == entries@.len(),
            all == as_turns(entries.deep_view()),
            out@ == head + rows_of(all.take(i as int)),
        decreases n - i,
    {
        let ghost before = out@;
        proof {
            assert(all.take(i as int + 1).drop_last() =~= all.take(i as int));
            assert(all.take(i as int + 1).last() == opened(entries@[i as int]@));
        }
        out.append("| ");
        push_escaped(&mut out, entries[i].speaker.as_str());
        out.append(" | ");
        push_escaped(&mut out, entries[i].text.as_str());
        out.append(" |\n");
        assert(out@ =~= before + row_of(opened(entries@[i as int]@)));
        assert(out@ =~= head + rows_of(all.take(i as int + 1)));
        i += 1;
    }
    assert(all.take(n as int) =~= all);
    out
}

/// Turns a dump in the tagged format into a table: the entries are read,
/// each run of one speaker is folded into a turn, and the turns are
/// rendered. A dump that holds no entry gives no table.
pub fn json_to_md(input: &str) -> (table: Option<String>)
    ensures
        match table {
            None => turns_of(Mode::Tagged, entries_of(input@)).len() == 0,
            Some(t) => turns_of(Mode::Tagged, entries_of(input@)).len() > 0 && t@ == table_of(
                turns_of(Mode::Tagged, entries_of(input@)),
            ),
        },
{
    let merged = merge_entries(parse_entries(input));
    assert(as_turns(merged.deep_view()).len() == merged.len());
    if merged.len() == 0 {
        None
    } else {
        Some(to_markdown_table(merged.as_slice()))
    }
}

} // verus!
