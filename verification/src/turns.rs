//! The turn builder as a mathematical model: how a run of records becomes
//! a sequence of turns, and what holds of every such sequence.
//!
//! Both input formats share this model. They differ in one place only, the
//! case rule that is applied to a payload when it joins the turn before it.

use crate::text::{ends_with_period, lower_first, upper_first};
use crate::timestamp::Timestamp;
use vstd::prelude::*;

verus! {

/// The input format, which decides the case rule of a merge.
#[derive(Clone, Copy, Debug, PartialEq, Eq, Structural)]
pub enum Mode {
    /// Lines of the shape `TIMESTAMP - NAME: MESSAGE`.
    Timestamped,
    /// `speaker` and `text` fields with quoted values.
    Tagged,
}

/// What one matched line of input gives: who spoke, what was said, and
/// when, where the format tells.
pub ghost struct Record {
    pub identity: Seq<char>,
    pub payload: Seq<char>,
    pub time: Option<Timestamp>,
}

/// One speaker's uninterrupted run of records, folded into one.
pub ghost struct Turn {
    pub identity: Seq<char>,
    pub payload: Seq<char>,
    pub start_time: Option<Timestamp>,
    pub end_time: Option<Timestamp>,
}

/// The payload `next` as it is appended to `current`. Lines with
/// timestamps keep it as it is after a sentence that a period ends, and
/// put its first character in lowercase otherwise. Tagged input puts the
/// first character in uppercase after a period, and in lowercase otherwise.
pub open spec fn cased(mode: Mode, current: Seq<char>, next: Seq<char>) -> Seq<char> {
    if !ends_with_period(current) {
        lower_first(next)
    } else {
        match mode {
            Mode::Timestamped => next,
            Mode::Tagged => upper_first(next),
        }
    }
}

/// The payload of a turn after `next` has joined it: the old payload, one
/// space, and `next` under the case rule.
pub open spec fn joined(mode: Mode, current: Seq<char>, next: Seq<char>) -> Seq<char> {
    current + seq![' '] + cased(mode, current, next)
}

/// The turn that a record opens.
pub open spec fn opened(r: Record) -> Turn {
    Turn { identity: r.identity, payload: r.payload, start_time: r.time, end_time: None }
}

/// The turn `t` after the record `r` of the same speaker has joined it.
pub open spec fn extended(mode: Mode, t: Turn, r: Record) -> Turn {
    Turn { payload: joined(mode, t.payload, r.payload), ..t }
}

/// The turn `t` once the record `r` of another speaker has ended it.
pub open spec fn closed_by(t: Turn, r: Record) -> Turn {
    Turn { end_time: r.time, ..t }
}

/// The turns that the records make. A record joins the last turn where it
/// has that turn's identity; otherwise it ends the last turn, if there is
/// one, and opens the next.
pub open spec fn turns_of(mode: Mode, records: Seq<Record>) -> Seq<Turn>
    decreases records.len(),
{
    if records.len() == 0 {
        Seq::empty()
    } else {
        let turns = turns_of(mode, records.drop_last());
        let r = records.last();
        if turns.len() == 0 {
            seq![opened(r)]
        } else if turns.last().identity == r.identity {
            turns.update(turns.len() - 1, extended(mode, turns.last(), r))
        } else {
            turns.update(turns.len() - 1, closed_by(turns.last(), r)).push(opened(r))
        }
    }
}

/// No record has the identity of the record before it.
pub open spec fn speakers_alternate(records: Seq<Record>) -> bool {
    forall|i: int|
        0 <= i < records.len() - 1 ==> (#[trigger] records[i]).identity != records[i + 1].identity
}

/// Every record carries a time.
pub open spec fn all_timed(records: Seq<Record>) -> bool {
    forall|i: int| 0 <= i < records.len() ==> (#[trigger] records[i]).time is Some
}

/// There is a turn as soon as there is a record, and the last turn is that
/// of the last record's speaker and still open.
pub proof fn lemma_last_turn(mode: Mode, records: Seq<Record>)
    ensures
        turns_of(mode, records).len() == 0 <==> records.len() == 0,
        records.len() > 0 ==> turns_of(mode, records).last().identity == records.last().identity,
        records.len() > 0 ==> turns_of(mode, records).last().end_time is None,
    decreases records.len(),
{
    if records.len() > 0 {
        lemma_last_turn(mode, records.drop_last());
    }
}

/// There are never more turns than records, and as many only where no two
/// records in a row share an identity.
pub proof fn lemma_turn_count(mode: Mode, records: Seq<Record>)
    ensures
        turns_of(mode, records).len() <= records.len(),
        turns_of(mode, records).len() == records.len() <==> speakers_alternate(records),
    decreases records.len(),
{
    if records.len() > 0 {
        let before = records.drop_last();
        lemma_turn_count(mode, before);
        lemma_last_turn(mode, before);
        let n = before.len() as int;
        if n == 0 {
        } else if before.last().identity == records.last().identity {
            assert(records[n - 1] == before.last());
            assert(!speakers_alternate(records));
        } else {
            if speakers_alternate(before) {
                assert forall|i: int| 0 <= i < records.len() - 1 implies (#[trigger] records[i]).identity
                    != records[i + 1].identity by {
                    if i < n - 1 {
                        assert(before[i].identity != before[i + 1].identity);
                    }
                }
            }
            if speakers_alternate(records) {
                assert forall|i: int| 0 <= i < before.len() - 1 implies (#[trigger] before[i]).identity
                    != before[i + 1].identity by {
                    assert(records[i].identity != records[i + 1].identity);
                }
            }
        }
    }
}

/// A record that joins the current turn changes that turn's payload and
/// nothing else: the identity, the start time and the turns before it stay.
pub proof fn lemma_merge_keeps_turn(mode: Mode, records: Seq<Record>, next: Record)
    requires
        turns_of(mode, records).len() > 0,
        turns_of(mode, records).last().identity == next.identity,
    ensures
        turns_of(mode, records.push(next)).len() == turns_of(mode, records).len(),
        turns_of(mode, records.push(next)).drop_last() == turns_of(mode, records).drop_last(),
        turns_of(mode, records.push(next)).last().identity == turns_of(
            mode,
            records,
        ).last().identity,
        turns_of(mode, records.push(next)).last().start_time == turns_of(
            mode,
            records,
        ).last().start_time,
        turns_of(mode, records.push(next)).last().end_time == turns_of(
            mode,
            records,
        ).last().end_time,
        turns_of(mode, records.push(next)).last().payload == joined(
            mode,
            turns_of(mode, records).last().payload,
            next.payload,
        ),
{
    assert(records.push(next).drop_last() =~= records);
    assert(turns_of(mode, records.push(next)).drop_last() =~= turns_of(mode, records).drop_last());
}

/// Between the payload of a turn and the payload that joins it stands one
/// space, whatever whitespace either of them holds: the old payload is kept
/// whole, then comes the space, then the new payload under the case rule.
pub proof fn lemma_one_space_between(mode: Mode, current: Seq<char>, next: Seq<char>)
    ensures
        joined(mode, current, next).len() == current.len() + 1 + cased(mode, current, next).len(),
        joined(mode, current, next).take(current.len() as int) == current,
        joined(mode, current, next)[current.len() as int] == ' ',
        joined(mode, current, next).skip(current.len() as int + 1) == cased(mode, current, next),
{
    let whole = joined(mode, current, next);
    assert(whole.take(current.len() as int) =~= current);
    assert(whole.skip(current.len() as int + 1) =~= cased(mode, current, next));
}

/// After a sentence that a period ends, lines with timestamps append the
/// next payload as it is, and tagged input puts its first character in
/// uppercase.
pub proof fn lemma_case_after_period(current: Seq<char>, next: Seq<char>)
    requires
        ends_with_period(current),
    ensures
        joined(Mode::Timestamped, current, next) == current + seq![' '] + next,
        joined(Mode::Tagged, current, next) == current + seq![' '] + upper_first(next),
{
}

/// Where the current payload does not end in a period, both formats put the
/// first character of the next payload in lowercase.
pub proof fn lemma_case_without_period(mode: Mode, current: Seq<char>, next: Seq<char>)
    requires
        !ends_with_period(current),
    ensures
        joined(mode, current, next) == current + seq![' '] + lower_first(next),
{
}

/// Two turns in a row never share an identity.
pub proof fn lemma_neighbours_differ(mode: Mode, records: Seq<Record>)
    ensures
        forall|i: int|
            0 <= i < turns_of(mode, records).len() - 1 ==> (#[trigger] turns_of(
                mode,
                records,
            )[i]).identity != turns_of(mode, records)[i + 1].identity,
    decreases records.len(),
{
    if records.len() > 0 {
        lemma_neighbours_differ(mode, records.drop_last());
        let before = turns_of(mode, records.drop_last());
        let after = turns_of(mode, records);
        assert forall|i: int| 0 <= i < after.len() - 1 implies (#[trigger] after[i]).identity
            != after[i + 1].identity by {
            if i + 1 < before.len() {
                assert(before[i].identity != before[i + 1].identity);
            }
        }
    }
}

/// Where every record carries a time, every turn starts at the time of
/// its first record and ends when the next turn starts; the last turn has
/// no end.
pub proof fn lemma_turn_times(mode: Mode, records: Seq<Record>)
    requires
        all_timed(records),
    ensures
        forall|i: int|
            0 <= i < turns_of(mode, records).len() ==> (#[trigger] turns_of(
                mode,
                records,
            )[i]).start_time is Some,
        forall|i: int|
            0 <= i < turns_of(mode, records).len() - 1 ==> (#[trigger] turns_of(
                mode,
                records,
            )[i]).end_time == turns_of(mode, records)[i + 1].start_time,
        records.len() > 0 ==> turns_of(mode, records).last().end_time is None,
    decreases records.len(),
{
    if records.len() > 0 {
        let earlier = records.drop_last();
        assert forall|i: int| 0 <= i < earlier.len() implies (#[trigger] earlier[i]).time is Some by {
            assert(records[i].time is Some);
        }
        lemma_turn_times(mode, earlier);
        lemma_last_turn(mode, earlier);
        let before = turns_of(mode, earlier);
        let after = turns_of(mode, records);
        assert(records.last() == records[records.len() - 1]);
        assert forall|i: int| 0 <= i < after.len() implies (#[trigger] after[i]).start_time is Some by {
            if i < before.len() {
                assert(before[i].start_time is Some);
            }
        }
        assert forall|i: int| 0 <= i < after.len() - 1 implies (#[trigger] after[i]).end_time
            == after[i + 1].start_time by {
            if i + 1 < before.len() {
                assert(before[i].end_time == before[i + 1].start_time);
            }
        }
    }
}

/// Where no record has an empty payload, no turn has one.
pub proof fn lemma_payloads_not_empty(mode: Mode, records: Seq<Record>)
    requires
        forall|i: int| 0 <= i < records.len() ==> (#[trigger] records[i]).payload.len() > 0,
    ensures
        forall|i: int|
            0 <= i < turns_of(mode, records).len() ==> (#[trigger] turns_of(
                mode,
                records,
            )[i]).payload.len() > 0,
    decreases records.len(),
{
    if records.len() > 0 {
        let earlier = records.drop_last();
        assert forall|i: int| 0 <= i < earlier.len() implies (#[trigger] earlier[i]).payload.len()
            > 0 by {
            assert(records[i].payload.len() > 0);
        }
        lemma_payloads_not_empty(mode, earlier);
        let before = turns_of(mode, earlier);
        let after = turns_of(mode, records);
        assert(records.last() == records[records.len() - 1]);
        assert forall|i: int| 0 <= i < after.len() implies (#[trigger] after[i]).payload.len()
            > 0 by {
            if i < before.len() {
                assert(before[i].payload.len() > 0);
            }
        }
    }
}

} // verus!
