//! Reading a chart from text.
//!
//! A chart is a list of fields separated by commas; white space counts
//! nowhere. A field is a tag and its arguments, separated by colons:
//!
//! * `R`, `B` or `P` and a gap: a note of the red, blue or purple lane;
//! * `BPM`, a whole number and a gap: a change of tempo;
//! * `SPEED`, a decimal and a gap: a change of the scroll speed to aim for.
//!
//! A gap is a decimal that is not negative, in beats. Every entry is due its
//! own gap after the entry before it, the first one its gap after the start of
//! the track. A field with an empty tag ends the chart, and what follows it is
//! not looked at. Arguments beyond those named are not looked at either.
//!
//! Playback starts a *lead trim* into the track, so every offset is moved
//! back by the beats that pass in that time at the chart's first tempo.

use vstd::prelude::*;
use vstd::string::StringSliceAdditionalSpecFns;
use crate::chart::{
    events_ascend,
    notes_ascend,
    Chart,
    ChartEvent,
    ChartEventKind,
    ChartState,
    Note,
    NoteKind,
    RAMP_TARGET,
};
use crate::number::{decimal_micros, int_value, lemma_decimal_bound, parse_decimal, parse_int};
use crate::text::{split, split_on, strip_blanks, views, without_blanks, COLON, COMMA};
use crate::units::{MICROS, UNITS_PER_MICRO};

verus! {

/// What the tag of a field says.
#[derive(Clone, Copy, Debug, PartialEq, Eq, Structural)]
pub enum Tag {
    /// `R`, `B` or `P`.
    Note(NoteKind),
    /// `BPM`.
    Bpm,
    /// `SPEED`.
    Speed,
    /// The empty tag.
    End,
    /// Any other text.
    Unknown,
}

/// What an entry of the chart puts on the timeline.
#[derive(Clone, Copy, Debug, PartialEq, Eq, Structural)]
pub enum Entry {
    Note(NoteKind),
    Event(ChartEventKind),
}

/// What a field of the chart says.
#[derive(Clone, Copy, Debug, PartialEq, Eq, Structural)]
pub enum Field {
    /// The chart ends here.
    End,
    /// The field is malformed.
    Bad,
    /// An entry that is due `gap` units after the one before it.
    Entry { what: Entry, gap: i64 },
}

/// The notes and events of a chart, each in the chart's order.
pub struct Timeline {
    pub notes: Seq<Note>,
    pub events: Seq<ChartEvent>,
}

/// The meaning of the tag `tag`.
pub open spec fn tag_of(tag: Seq<u8>) -> Tag {
    if tag.len() == 0 {
        Tag::End
    } else if tag == seq![0x52u8] {
        Tag::Note(NoteKind::Red)
    } else if tag == seq![0x42u8] {
        Tag::Note(NoteKind::Blue)
    } else if tag == seq![0x50u8] {
        Tag::Note(NoteKind::Purple)
    } else if tag == seq![0x42u8, 0x50u8, 0x4du8] {
        Tag::Bpm
    } else if tag == seq![0x53u8, 0x50u8, 0x45u8, 0x45u8, 0x44u8] {
        Tag::Speed
    } else {
        Tag::Unknown
    }
}

/// The gap that `s` writes, in units; `None` where `s` is no decimal or is
/// negative.
pub open spec fn gap_units(s: Seq<u8>) -> Option<i64> {
    match decimal_micros(s) {
        Some(micros) if micros >= 0 => Some((micros * 9) as i64),
        _ => None,
    }
}

/// The meaning of the field `field`.
pub open spec fn decode_field(field: Seq<u8>) -> Field {
    let parts = split_on(field, COLON);
    match tag_of(parts[0]) {
        Tag::End => Field::End,
        Tag::Unknown => Field::Bad,
        Tag::Note(kind) => {
            if parts.len() >= 2 && gap_units(parts[1]) is Some {
                Field::Entry { what: Entry::Note(kind), gap: gap_units(parts[1]).unwrap() }
            } else {
                Field::Bad
            }
        },
        Tag::Bpm => {
            if parts.len() >= 3 && int_value(parts[1]) is Some && gap_units(parts[2]) is Some {
                Field::Entry {
                    what: Entry::Event(
                        ChartEventKind::BpmChange(int_value(parts[1]).unwrap() as i32),
                    ),
                    gap: gap_units(parts[2]).unwrap(),
                }
            } else {
                Field::Bad
            }
        },
        Tag::Speed => {
            if parts.len() >= 3 && decimal_micros(parts[1]) is Some && gap_units(parts[2])
                is Some {
                Field::Entry {
                    what: Entry::Event(
                        ChartEventKind::SpeedChange(decimal_micros(parts[1]).unwrap() as i64),
                    ),
                    gap: gap_units(parts[2]).unwrap(),
                }
            } else {
                Field::Bad
            }
        },
    }
}

/// The units by which a lead trim of `lead_trim_ms` milliseconds moves the
/// timeline of a chart that starts at tempo `bpm`: the beats that pass in
/// that time, `lead_trim_ms * bpm / 60000`.
pub open spec fn shift_units(lead_trim_ms: u32, bpm: i32) -> int {
    lead_trim_ms * bpm * 150
}

/// `offset` can be held.
pub open spec fn fits(offset: int) -> bool {
    i64::MIN <= offset <= i64::MAX
}

/// The timeline with nothing on it.
pub open spec fn no_entries() -> Timeline {
    Timeline { notes: Seq::empty(), events: Seq::empty() }
}

/// `rest` with the entry `what`, due at `offset`, put before it.
pub open spec fn entry_then(what: Entry, offset: i64, rest: Timeline) -> Timeline {
    match what {
        Entry::Note(kind) => Timeline {
            notes: seq![Note { offset, kind }] + rest.notes,
            events: rest.events,
        },
        Entry::Event(kind) => Timeline {
            notes: rest.notes,
            events: seq![ChartEvent { offset, kind }] + rest.events,
        },
    }
}

/// `first` with the entry `what`, due at `offset`, put behind it.
pub open spec fn then_entry(first: Timeline, what: Entry, offset: i64) -> Timeline {
    match what {
        Entry::Note(kind) => Timeline {
            notes: first.notes.push(Note { offset, kind }),
            events: first.events,
        },
        Entry::Event(kind) => Timeline {
            notes: first.notes,
            events: first.events.push(ChartEvent { offset, kind }),
        },
    }
}

/// `first` followed by `rest`.
pub open spec fn timelines_joined(first: Timeline, rest: Timeline) -> Timeline {
    Timeline { notes: first.notes + rest.notes, events: first.events + rest.events }
}

/// The timeline that `fields` declare when `elapsed` units lie before the
/// first of them and every offset is moved back by `shift`. `None` where a
/// field before the end of the chart is malformed or an offset cannot be
/// held.
pub open spec fn timeline_from(fields: Seq<Seq<u8>>, elapsed: int, shift: int) -> Option<
    Timeline,
>
    decreases fields.len(),
{
    if fields.len() == 0 {
        Some(no_entries())
    } else {
        match decode_field(fields[0]) {
            Field::End => Some(no_entries()),
            Field::Bad => None,
            Field::Entry { what, gap } => {
                let due = elapsed + gap;
                if !fits(due - shift) {
                    None
                } else {
                    match timeline_from(fields.skip(1), due, shift) {
                        Some(rest) => Some(entry_then(what, (due - shift) as i64, rest)),
                        None => None,
                    }
                }
            },
        }
    }
}

/// The chart that `text` declares for a first tempo of `bpm` and a lead trim
/// of `lead_trim_ms` milliseconds; `None` where `text` is malformed or an
/// offset cannot be held.
pub open spec fn chart_of(text: Seq<u8>, bpm: i32, lead_trim_ms: u32) -> Option<ChartState> {
    match timeline_from(
        split_on(without_blanks(text), COMMA),
        0,
        shift_units(lead_trim_ms, bpm),
    ) {
        Some(timeline) => Some(
            ChartState {
                notes: timeline.notes,
                events: timeline.events,
                bpm,
                speed: MICROS,
                target_speed: RAMP_TARGET,
                score: 0,
            },
        ),
        None => None,
    }
}

/// `timeline` with every offset moved back by `shift`.
pub open spec fn moved_back(timeline: Timeline, shift: int) -> Timeline {
    Timeline {
        notes: timeline.notes.map_values(
            |n: Note| Note { offset: (n.offset - shift) as i64, kind: n.kind },
        ),
        events: timeline.events.map_values(
            |e: ChartEvent| ChartEvent { offset: (e.offset - shift) as i64, kind: e.kind },
        ),
    }
}

/// Every offset of `timeline` can still be held once moved back by `shift`.
pub open spec fn can_move_back(timeline: Timeline, shift: int) -> bool {
    &&& forall|i: int|
        0 <= i < timeline.notes.len() ==> fits((#[trigger] timeline.notes[i]).offset - shift)
    &&& forall|i: int|
        0 <= i < timeline.events.len() ==> fits((#[trigger] timeline.events[i]).offset - shift)
}

/// An entry between two timelines may be counted to either: put behind the
/// first or before the second, the whole is the same.
pub proof fn lemma_entry_between(first: Timeline, what: Entry, offset: i64, rest: Timeline)
    ensures
        timelines_joined(then_entry(first, what, offset), rest) == timelines_joined(
            first,
            entry_then(what, offset, rest),
        ),
{
    let left = timelines_joined(then_entry(first, what, offset), rest);
    let right = timelines_joined(first, entry_then(what, offset, rest));
    assert(left.notes == right.notes);
    assert(left.events == right.events);
}

/// Joining a timeline with the empty one, on either side, changes nothing.
pub proof fn lemma_joined_with_nothing(timeline: Timeline)
    ensures
        timelines_joined(timeline, no_entries()) == timeline,
        timelines_joined(no_entries(), timeline) == timeline,
{
    assert(timelines_joined(timeline, no_entries()).notes == timeline.notes);
    assert(timelines_joined(timeline, no_entries()).events == timeline.events);
    assert(timelines_joined(no_entries(), timeline).notes == timeline.notes);
    assert(timelines_joined(no_entries(), timeline).events == timeline.events);
}

/// A gap is never negative and stays below a thousand million beats.
pub proof fn lemma_gap_range(s: Seq<u8>)
    requires
        gap_units(s) is Some,
    ensures
        0 <= gap_units(s).unwrap() < 9_000_000_000_000_000,
        gap_units(s).unwrap() == decimal_micros(s).unwrap() * UNITS_PER_MICRO,
{
    lemma_decimal_bound(s);
}

/// The gap of an entry is never negative.
pub proof fn lemma_entry_gap(field: Seq<u8>)
    ensures
        decode_field(field) matches Field::Entry { gap, .. } ==> 0 <= gap
            < 9_000_000_000_000_000,
{
    let parts = split_on(field, COLON);
    if decode_field(field) is Entry {
        match tag_of(parts[0]) {
            Tag::Note(_) => {
                lemma_gap_range(parts[1]);
            },
            Tag::Bpm => {
                lemma_gap_range(parts[2]);
            },
            Tag::Speed => {
                lemma_gap_range(parts[2]);
            },
            _ => {},
        }
    }
}

/// Moving back a timeline that starts with an entry moves that entry and
/// the rest, and can be done where both can be moved.
pub proof fn lemma_move_entry(what: Entry, offset: i64, rest: Timeline, shift: int)
    ensures
        can_move_back(entry_then(what, offset, rest), shift) <==> fits(offset - shift)
            && can_move_back(rest, shift),
        moved_back(entry_then(what, offset, rest), shift) == entry_then(
            what,
            (offset - shift) as i64,
            moved_back(rest, shift),
        ),
{
    let whole = entry_then(what, offset, rest);
    let moved = entry_then(what, (offset - shift) as i64, moved_back(rest, shift));
    assert(moved_back(whole, shift).notes == moved.notes);
    assert(moved_back(whole, shift).events == moved.events);
    if can_move_back(whole, shift) {
        assert forall|i: int| 0 <= i < rest.notes.len() implies fits(
            (#[trigger] rest.notes[i]).offset - shift,
        ) by {
            assert(what is Note ==> rest.notes[i] == whole.notes[i + 1]);
        }
        assert forall|i: int| 0 <= i < rest.events.len() implies fits(
            (#[trigger] rest.events[i]).offset - shift,
        ) by {
            assert(what is Event ==> rest.events[i] == whole.events[i + 1]);
        }
        assert(what is Note ==> whole.notes[0].offset == offset);
        assert(what is Event ==> whole.events[0].offset == offset);
    }
    if fits(offset - shift) && can_move_back(rest, shift) {
        assert forall|i: int| 0 <= i < whole.notes.len() implies fits(
            (#[trigger] whole.notes[i]).offset - shift,
        ) by {
            assert(what is Note && i > 0 ==> whole.notes[i] == rest.notes[i - 1]);
        }
        assert forall|i: int| 0 <= i < whole.events.len() implies fits(
            (#[trigger] whole.events[i]).offset - shift,
        ) by {
            assert(what is Event && i > 0 ==> whole.events[i] == rest.events[i - 1]);
        }
    }
}

/// The shift moves the timeline as a whole and changes nothing else: where
/// the fields give a timeline with the shift `from`, they give with the
/// shift `to` that same timeline with every offset less by exactly the
/// difference, as long as every such offset can be held, and nothing
/// otherwise.
pub proof fn lemma_shift_moves_all(fields: Seq<Seq<u8>>, elapsed: int, from: int, to: int)
    requires
        timeline_from(fields, elapsed, from) is Some,
    ensures
        timeline_from(fields, elapsed, to) == if can_move_back(
            timeline_from(fields, elapsed, from).unwrap(),
            to - from,
        ) {
            Some(moved_back(timeline_from(fields, elapsed, from).unwrap(), to - from))
        } else {
            None
        },
    decreases fields.len(),
{
    let plain = timeline_from(fields, elapsed, from).unwrap();
    let by = to - from;
    if fields.len() > 0 && decode_field(fields[0]) is Entry {
        let what = decode_field(fields[0])->what;
        let due = elapsed + decode_field(fields[0])->gap;
        let rest = timeline_from(fields.skip(1), due, from).unwrap();
        lemma_shift_moves_all(fields.skip(1), due, from, to);
        lemma_move_entry(what, (due - from) as i64, rest, by);
    } else {
        assert(moved_back(plain, by).notes == plain.notes);
        assert(moved_back(plain, by).events == plain.events);
    }
}

/// The chart `chart` with every offset moved back by `shift`.
pub open spec fn chart_moved_back(chart: ChartState, shift: int) -> ChartState {
    let timeline = Timeline { notes: chart.notes, events: chart.events };
    ChartState {
        notes: moved_back(timeline, shift).notes,
        events: moved_back(timeline, shift).events,
        ..chart
    }
}

/// Every offset of `chart` can still be held once moved back by `shift`.
pub open spec fn chart_can_move_back(chart: ChartState, shift: int) -> bool {
    can_move_back(Timeline { notes: chart.notes, events: chart.events }, shift)
}

/// The lead trim only moves the timeline. Where a text reads as a chart with
/// one lead trim, it reads with another as that same chart, every offset
/// less by exactly the difference of the two shifts: lanes, events, order,
/// number, tempo and score are the same. It reads as nothing only where one
/// of those offsets cannot be held.
pub proof fn lemma_lead_trims_differ_by_shift(text: Seq<u8>, bpm: i32, one: u32, other: u32)
    requires
        chart_of(text, bpm, one) is Some,
    ensures
        ({
            let by = shift_units(other, bpm) - shift_units(one, bpm);
            let first = chart_of(text, bpm, one).unwrap();
            chart_of(text, bpm, other) == if chart_can_move_back(first, by) {
                Some(chart_moved_back(first, by))
            } else {
                None
            }
        }),
{
    lemma_shift_moves_all(
        split_on(without_blanks(text), COMMA),
        0,
        shift_units(one, bpm),
        shift_units(other, bpm),
    );
}

/// Reading a chart with a lead trim gives what reading it without one
/// gives, every offset less by exactly `lead_trim_ms * bpm * 150` units,
/// which is `lead_trim_ms * bpm / 60000` beats.
pub proof fn lemma_lead_trim_moves_all(text: Seq<u8>, bpm: i32, lead_trim_ms: u32)
    requires
        chart_of(text, bpm, 0) is Some,
    ensures
        ({
            let shift = shift_units(lead_trim_ms, bpm);
            let plain = chart_of(text, bpm, 0).unwrap();
            chart_of(text, bpm, lead_trim_ms) == if chart_can_move_back(plain, shift) {
                Some(chart_moved_back(plain, shift))
            } else {
                None
            }
        }),
{
    assert(shift_units(0, bpm) == 0) by (nonlinear_arith);
    lemma_lead_trims_differ_by_shift(text, bpm, 0, lead_trim_ms);
}

/// On a timeline read from fields nothing is due before the time that lay
/// before the first field, and within the notes and within the events the
/// offsets never fall: the chart's order is the order in time.
pub proof fn lemma_timeline_ascends(fields: Seq<Seq<u8>>, elapsed: int, shift: int)
    requires
        timeline_from(fields, elapsed, shift) is Some,
    ensures
        ({
            let timeline = timeline_from(fields, elapsed, shift).unwrap();
            &&& forall|i: int|
                0 <= i < timeline.notes.len() ==> (#[trigger] timeline.notes[i]).offset >= elapsed
                    - shift
            &&& forall|i: int|
                0 <= i < timeline.events.len() ==> (#[trigger] timeline.events[i]).offset
                    >= elapsed - shift
            &&& notes_ascend(timeline.notes)
            &&& events_ascend(timeline.events)
        }),
    decreases fields.len(),
{
    let timeline = timeline_from(fields, elapsed, shift).unwrap();
    if fields.len() > 0 {
        match decode_field(fields[0]) {
            Field::Entry { what, gap } => {
                let due = elapsed + gap;
                let rest = timeline_from(fields.skip(1), due, shift).unwrap();
                lemma_entry_gap(fields[0]);
                lemma_timeline_ascends(fields.skip(1), due, shift);
                assert(timeline == entry_then(what, (due - shift) as i64, rest));
                assert forall|i: int| 0 < i < timeline.notes.len() && what is Note implies (
                #[trigger] timeline.notes[i]) == rest.notes[i - 1] by {}
                assert forall|i: int| 0 < i < timeline.events.len() && what is Event implies (
                #[trigger] timeline.events[i]) == rest.events[i - 1] by {}
            },
            _ => {},
        }
    }
}

/// A chart as read is in order: among its notes and among its events, one
/// that the text declares later is never due earlier.
pub proof fn lemma_chart_ascends(text: Seq<u8>, bpm: i32, lead_trim_ms: u32)
    requires
        chart_of(text, bpm, lead_trim_ms) is Some,
    ensures
        notes_ascend(chart_of(text, bpm, lead_trim_ms).unwrap().notes),
        events_ascend(chart_of(text, bpm, lead_trim_ms).unwrap().events),
{
    lemma_timeline_ascends(
        split_on(without_blanks(text), COMMA),
        0,
        shift_units(lead_trim_ms, bpm),
    );
}

/// Reads a tag.
pub fn read_tag(tag: &[u8]) -> (r: Tag)
    ensures
        r == tag_of(tag@),
{
    let n: usize = tag.len();
    if n == 0 {
        Tag::End
    } else if n == 1 && tag[0] == 0x52 {
        assert(tag@ =~= seq![0x52u8]);
        Tag::Note(NoteKind::Red)
    } else if n == 1 && tag[0] == 0x42 {
        assert(tag@ =~= seq![0x42u8]);
        Tag::Note(NoteKind::Blue)
    } else if n == 1 && tag[0] == 0x50 {
        assert(tag@ =~= seq![0x50u8]);
        Tag::Note(NoteKind::Purple)
    } else if n == 3 && tag[0] == 0x42 && tag[1] == 0x50 && tag[2] == 0x4d {
        assert(tag@ =~= seq![0x42u8, 0x50u8, 0x4du8]);
        Tag::Bpm
    } else if n == 5 && tag[0] == 0x53 && tag[1] == 0x50 && tag[2] == 0x45 && tag[3] == 0x45
        && tag[4] == 0x44 {
        assert(tag@ =~= seq![0x53u8, 0x50u8, 0x45u8, 0x45u8, 0x44u8]);
        Tag::Speed
    } else {
        assert(tag@ != seq![0x52u8]) by {
            if n == 1 {
                assert(seq![0x52u8][0] == 0x52u8);
            } else {
                assert(seq![0x52u8].len() == 1);
            }
        }
        assert(tag@ != seq![0x42u8]) by {
            if n == 1 {
                assert(seq![0x42u8][0] == 0x42u8);
            } else {
                assert(seq![0x42u8].len() == 1);
            }
        }
        assert(tag@ != seq![0x50u8]) by {
            if n == 1 {
                assert(seq![0x50u8][0] == 0x50u8);
            } else {
                assert(seq![0x50u8].len() == 1);
            }
        }
        assert(tag@ != seq![0x42u8, 0x50u8, 0x4du8]) by {
            let bpm = seq![0x42u8, 0x50u8, 0x4du8];
            assert(bpm.len() == 3 && bpm[0] == 0x42 && bpm[1] == 0x50 && bpm[2] == 0x4d);
        }
        assert(tag@ != seq![0x53u8, 0x50u8, 0x45u8, 0x45u8, 0x44u8]) by {
            let speed = seq![0x53u8, 0x50u8, 0x45u8, 0x45u8, 0x44u8];
            assert(speed.len() == 5 && speed[0] == 0x53 && speed[1] == 0x50 && speed[2] == 0x45
                && speed[3] == 0x45 && speed[4] == 0x44);
        }
        Tag::Unknown
    }
}

/// Reads a gap and returns it in units.
pub fn read_gap(s: &[u8]) -> (r: Option<i64>)
    ensures
        r == gap_units(s@),
        r is Some ==> 0 <= r.unwrap() < 9_000_000_000_000_000,
{
    match parse_decimal(s) {
        Some(micros) => {
            proof {
                lemma_decimal_bound(s@);
            }
            if micros >= 0 {
                Some(micros * UNITS_PER_MICRO)
            } else {
                None
            }
        },
        None => None,
    }
}

/// Reads a field.
pub fn read_field(field: &[u8]) -> (r: Field)
    ensures
        r == decode_field(field@),
        r matches Field::Entry { gap, .. } ==> 0 <= gap < 9_000_000_000_000_000,
{
    let parts: Vec<Vec<u8>> = split(field, COLON);
    let ghost shown = views(parts@);
    assert(shown[0] == parts@[0]@);
    match read_tag(parts[0].as_slice()) {
        Tag::End => Field::End,
        Tag::Unknown => Field::Bad,
        Tag::Note(kind) => {
            if parts.len() < 2 {
                return Field::Bad;
            }
            assert(shown[1] == parts@[1]@);
            match read_gap(parts[1].as_slice()) {
                Some(gap) => Field::Entry { what: Entry::Note(kind), gap },
                None => Field::Bad,
            }
        },
        Tag::Bpm => {
            if parts.len() < 3 {
                return Field::Bad;
            }
            assert(shown[1] == parts@[1]@);
            assert(shown[2] == parts@[2]@);
            match (parse_int(parts[1].as_slice()), read_gap(parts[2].as_slice())) {
                (Some(to), Some(gap)) => Field::Entry {
                    what: Entry::Event(ChartEventKind::BpmChange(to)),
                    gap,
                },
                _ => Field::Bad,
            }
        },
        Tag::Speed => {
            if parts.len() < 3 {
                return Field::Bad;
            }
            assert(shown[1] == parts@[1]@);
            assert(shown[2] == parts@[2]@);
            match (parse_decimal(parts[1].as_slice()), read_gap(parts[2].as_slice())) {
                (Some(to), Some(gap)) => Field::Entry {
                    what: Entry::Event(ChartEventKind::SpeedChange(to)),
                    gap,
                },
                _ => Field::Bad,
            }
        },
    }
}

/// The units by which the lead trim moves the timeline.
pub fn lead_shift(lead_trim_ms: u32, bpm: i32) -> (shift: i128)
    ensures
        shift == shift_units(lead_trim_ms, bpm),
        -0x1_0000_0000_0000_0000_0000 <= shift <= 0x1_0000_0000_0000_0000_0000,
{
    let trim: i128 = lead_trim_ms as i128;
    let tempo: i128 = bpm as i128;
    assert(-0x8000_0000_0000_0000 <= trim * tempo <= 0x8000_0000_0000_0000) by (nonlinear_arith)
        requires
            0 <= trim <= 0xffff_ffff,
            -0x8000_0000 <= tempo <= 0x7fff_ffff,
    ;
    trim * tempo * 150
}

impl Chart {
    /// Reads the chart `text` for a first tempo of `bpm` and a lead trim of
    /// `lead_trim_ms` milliseconds. Gives nothing where the text is malformed
    /// or an offset cannot be held; no part of a chart is ever returned.
    pub fn parse(text: &[u8], bpm: i32, lead_trim_ms: u32) -> (r: Option<Chart>)
        ensures
            r is Some <==> chart_of(text@, bpm, lead_trim_ms) is Some,
            r is Some ==> Some(r.unwrap()@) == chart_of(text@, bpm, lead_trim_ms),
    {
        let stripped: Vec<u8> = strip_blanks(text);
        let fields: Vec<Vec<u8>> = split(stripped.as_slice(), COMMA);
        let shift: i128 = lead_shift(lead_trim_ms, bpm);
        let ghost all = views(fields@);
        let ghost whole = timeline_from(all, 0, shift as int);
        let mut notes: Vec<Note> = Vec::new();
        let mut events: Vec<ChartEvent> = Vec::new();
        let mut elapsed: i128 = 0;
        let mut i: usize = 0;
        proof {
            assert(all.skip(0) == all);
            if whole is Some {
                lemma_joined_with_nothing(whole.unwrap());
            }
        }
        while i < fields.len()
            invariant
                i <= fields.len(),
                all == views(fields@),
                0 <= elapsed <= i * 9_000_000_000_000_000,
                -0x1_0000_0000_0000_0000_0000 <= shift <= 0x1_0000_0000_0000_0000_0000,
                chart_of(text@, bpm, lead_trim_ms) is Some <==> whole is Some,
                whole == match timeline_from(all.skip(i as int), elapsed as int, shift as int) {
                    Some(rest) => Some(
                        timelines_joined(Timeline { notes: notes@, events: events@ }, rest),
                    ),
                    None => None,
                },
            ensures
                whole == Some(Timeline { notes: notes@, events: events@ }),
            decreases fields.len() - i,
        {
            let ghost so_far = Timeline { notes: notes@, events: events@ };
            proof {
                assert(all.skip(i as int)[0] == fields@[i as int]@);
                assert(all.skip(i as int).skip(1) == all.skip(i + 1));
                lemma_joined_with_nothing(so_far);
            }
            match read_field(fields[i].as_slice()) {
                Field::End => {
                    break ;
                },
                Field::Bad => {
                    return None;
                },
                Field::Entry { what, gap } => {
                    let due: i128 = elapsed + gap as i128;
                    let place: i128 = due - shift;
                    if place < i64::MIN as i128 || place > i64::MAX as i128 {
                        return None;
                    }
                    let offset: i64 = place as i64;
                    match what {
                        Entry::Note(kind) => {
                            notes.push(Note { offset, kind });
                        },
                        Entry::Event(kind) => {
                            events.push(ChartEvent { offset, kind });
                        },
                    }
                    proof {
                        let rest = timeline_from(all.skip(i + 1), due as int, shift as int);
                        if rest is Some {
                            lemma_entry_between(so_far, what, offset, rest.unwrap());
                        }
                    }
                    elapsed = due;
                },
            }
            i += 1;
        }
        assert(timeline_from(
            split_on(without_blanks(text@), COMMA),
            0,
            shift_units(lead_trim_ms, bpm),
        ) == whole);
        Some(Chart::new(notes, events, bpm))
    }

    /// Reads a chart from a string, as [`Chart::parse`] reads it from the
    /// string's bytes.
    pub fn from_str(text: &str, bpm: i32, lead_trim_ms: u32) -> (r: Option<Chart>)
        ensures
            r is Some <==> chart_of(text.spec_bytes(), bpm, lead_trim_ms) is Some,
            r is Some ==> Some(r.unwrap()@) == chart_of(text.spec_bytes(), bpm, lead_trim_ms),
    {
        Chart::parse(text.as_bytes(), bpm, lead_trim_ms)
    }
}

} // verus!
