//! The chart in play: notes, pending events, tempo, scroll speed and score,
//! with the rules that age the timeline and judge key presses.

use vstd::prelude::*;
use crate::units::{MICROS, UNITS_PER_BEAT, UNITS_PER_TICK};

verus! {

/// The scroll speed that a fresh chart ramps up to, in millionths.
pub const RAMP_TARGET: i64 = 8_000_000;

/// Half the width of the window in which a note can be consumed: a beat and a
/// half, in units.
pub const CONSUME_REACH: i64 = 13_500_000;

/// The lane of a note, and of the key that hits it.
#[derive(Clone, Copy, Debug, PartialEq, Eq, Structural)]
pub enum NoteKind {
    Red,
    Blue,
    Purple,
}

/// A note to hit. `offset` is the time until it is due, in units; it is
/// negative once the note is overdue.
#[derive(Clone, Copy, Debug, PartialEq, Eq, Structural)]
pub struct Note {
    pub offset: i64,
    pub kind: NoteKind,
}

/// What a chart event changes: the tempo, in beats per minute, or the scroll
/// speed to aim for, in millionths.
#[derive(Clone, Copy, Debug, PartialEq, Eq, Structural)]
pub enum ChartEventKind {
    BpmChange(i32),
    SpeedChange(i64),
}

/// A scheduled change of tempo or scroll speed. `offset` is the time until it
/// takes effect, in units.
#[derive(Clone, Copy, Debug, PartialEq, Eq, Structural)]
pub struct ChartEvent {
    pub offset: i64,
    pub kind: ChartEventKind,
}

/// A chart in play. Notes and events stand in the order in which the chart
/// declared them.
#[derive(Debug)]
pub struct Chart {
    pub notes: Vec<Note>,
    pub events: Vec<ChartEvent>,
    pub bpm: i32,
    pub speed: i64,
    pub target_speed: i64,
    pub score: u64,
}

/// A chart as a mathematical value.
pub struct ChartState {
    pub notes: Seq<Note>,
    pub events: Seq<ChartEvent>,
    pub bpm: i32,
    pub speed: i64,
    pub target_speed: i64,
    pub score: u64,
}

impl View for Chart {
    type V = ChartState;

    open spec fn view(&self) -> ChartState {
        ChartState {
            notes: self.notes@,
            events: self.events@,
            bpm: self.bpm,
            speed: self.speed,
            target_speed: self.target_speed,
            score: self.score,
        }
    }
}

/// An offset one tick later. It stops at the least value an offset can hold.
pub open spec fn fall(offset: i64) -> i64 {
    if offset - UNITS_PER_TICK >= i64::MIN {
        (offset - UNITS_PER_TICK) as i64
    } else {
        i64::MIN
    }
}

/// A note one tick later.
pub open spec fn aged_note(note: Note) -> Note {
    Note { offset: fall(note.offset), kind: note.kind }
}

/// An event one tick later.
pub open spec fn aged_event(event: ChartEvent) -> ChartEvent {
    ChartEvent { offset: fall(event.offset), kind: event.kind }
}

/// An event takes effect once its offset is zero or less.
pub open spec fn is_due(event: ChartEvent) -> bool {
    event.offset <= 0
}

/// The events of `events` that are not due yet, in their order.
pub open spec fn pending(events: Seq<ChartEvent>) -> Seq<ChartEvent>
    decreases events.len(),
{
    if events.len() == 0 {
        Seq::empty()
    } else if is_due(events.last()) {
        pending(events.drop_last())
    } else {
        pending(events.drop_last()).push(events.last())
    }
}

/// The tempo after the due events of `events` took effect one after the
/// other, in their order, on the tempo `bpm`.
pub open spec fn bpm_after(events: Seq<ChartEvent>, bpm: i32) -> i32
    decreases events.len(),
{
    if events.len() == 0 {
        bpm
    } else {
        match events.last().kind {
            ChartEventKind::BpmChange(to) if is_due(events.last()) => to,
            _ => bpm_after(events.drop_last(), bpm),
        }
    }
}

/// The speed to aim for after the due events of `events` took effect one
/// after the other, in their order, on the aim `target`.
pub open spec fn target_after(events: Seq<ChartEvent>, target: i64) -> i64
    decreases events.len(),
{
    if events.len() == 0 {
        target
    } else {
        match events.last().kind {
            ChartEventKind::SpeedChange(to) if is_due(events.last()) => to,
            _ => target_after(events.drop_last(), target),
        }
    }
}

/// The chart one tick later: every offset has fallen by a tick, the events
/// that became due have taken effect in their order and are gone.
pub open spec fn ticked(chart: ChartState) -> ChartState {
    let aged = chart.events.map_values(|e: ChartEvent| aged_event(e));
    ChartState {
        notes: chart.notes.map_values(|n: Note| aged_note(n)),
        events: pending(aged),
        bpm: bpm_after(aged, chart.bpm),
        speed: chart.speed,
        target_speed: target_after(aged, chart.target_speed),
        score: chart.score,
    }
}

/// The chart `n` ticks later.
pub open spec fn ticked_times(chart: ChartState, n: nat) -> ChartState
    decreases n,
{
    if n == 0 {
        chart
    } else {
        ticked(ticked_times(chart, (n - 1) as nat))
    }
}

/// A key of lane `kind` may be pressed for `note`: the lanes agree and the
/// note is less than a beat overdue and at most a beat ahead.
pub open spec fn pressable(note: Note, kind: NoteKind) -> bool {
    note.kind == kind && -UNITS_PER_BEAT < note.offset <= UNITS_PER_BEAT
}

/// `note` can be consumed: it is less than a beat and a half away, on either
/// side.
pub open spec fn consumable(note: Note) -> bool {
    -CONSUME_REACH < note.offset < CONSUME_REACH
}

/// `note` was missed: it is more than a beat overdue.
pub open spec fn missed(note: Note) -> bool {
    note.offset < -UNITS_PER_BEAT
}

/// The points for a note consumed at `offset`: 500 over the distance in beats
/// plus a half, rounded down. In units that is 500 beats over the distance
/// plus half a beat. It is 1000 on the beat and falls with the distance.
pub open spec fn points_for(offset: i64) -> int {
    let distance = if offset < 0 {
        -offset
    } else {
        offset as int
    };
    4_500_000_000int / (distance + 4_500_000)
}

/// The place of the first consumable note of `notes`; their number where
/// none is consumable.
pub open spec fn first_consumable(notes: Seq<Note>) -> int
    decreases notes.len(),
{
    if notes.len() == 0 {
        0
    } else if consumable(notes[0]) {
        0
    } else {
        1 + first_consumable(notes.skip(1))
    }
}

/// `score` with `points` added, stopping at the greatest score there is.
pub open spec fn score_plus(score: u64, points: int) -> u64 {
    if score + points <= u64::MAX {
        (score + points) as u64
    } else {
        u64::MAX
    }
}

/// The chart after its first consumable note was taken out and paid for; the
/// chart itself where no note is consumable.
pub open spec fn consumed(chart: ChartState) -> ChartState {
    let at = first_consumable(chart.notes);
    if at < chart.notes.len() {
        ChartState {
            notes: chart.notes.remove(at),
            score: score_plus(chart.score, points_for(chart.notes[at].offset)),
            ..chart
        }
    } else {
        chart
    }
}

/// The scroll speed a tick later: a tenth of the way nearer to `target`, the
/// step rounded towards zero.
pub open spec fn eased(speed: i64, target: i64) -> int {
    let gap = target - speed;
    if gap >= 0 {
        speed + gap / 10
    } else {
        speed - (-gap) / 10
    }
}

/// `first_consumable` names the first consumable note: it lies within the
/// notes or just behind them, no note before it is consumable, and where it
/// lies within, the note there is.
pub proof fn lemma_first_consumable(notes: Seq<Note>)
    ensures
        0 <= first_consumable(notes) <= notes.len(),
        forall|j: int| 0 <= j < first_consumable(notes) ==> !consumable(#[trigger] notes[j]),
        first_consumable(notes) < notes.len() ==> consumable(notes[first_consumable(notes)]),
    decreases notes.len(),
{
    if notes.len() > 0 && !consumable(notes[0]) {
        let rest = notes.skip(1);
        lemma_first_consumable(rest);
        assert forall|j: int| 0 <= j < first_consumable(notes) implies !consumable(
            #[trigger] notes[j],
        ) by {
            if j > 0 {
                assert(notes[j] == rest[j - 1]);
            }
        }
    }
}

/// The place that `first_consumable` names is the only one with a consumable
/// note and none before it.
pub proof fn lemma_first_consumable_is(notes: Seq<Note>, at: int)
    requires
        0 <= at <= notes.len(),
        forall|j: int| 0 <= j < at ==> !consumable(#[trigger] notes[j]),
        at < notes.len() ==> consumable(notes[at]),
    ensures
        first_consumable(notes) == at,
{
    lemma_first_consumable(notes);
    let found = first_consumable(notes);
    if found < at {
        assert(!consumable(notes[found]));
    } else if at < found {
        assert(!consumable(notes[at]));
    }
}

/// An offset `ticks` ticks later. It stops at the least value an offset can
/// hold.
pub open spec fn fallen(offset: i64, ticks: nat) -> i64 {
    if offset - ticks * 500_000 >= i64::MIN {
        (offset - ticks * 500_000) as i64
    } else {
        i64::MIN
    }
}

/// Ticks alone neither add nor drop nor reorder notes, and they move every
/// note by the same amount: after `n` ticks each note has its lane and an
/// offset that is exactly `n` ticks less, whatever events took effect
/// meanwhile. The score and the scroll speed are as they were.
pub proof fn lemma_notes_after_ticks(chart: ChartState, n: nat)
    ensures
        ticked_times(chart, n).notes.len() == chart.notes.len(),
        forall|i: int|
            0 <= i < chart.notes.len() ==> (#[trigger] ticked_times(chart, n).notes[i]) == (Note {
                offset: fallen(chart.notes[i].offset, n),
                kind: chart.notes[i].kind,
            }),
        ticked_times(chart, n).score == chart.score,
        ticked_times(chart, n).speed == chart.speed,
    decreases n,
{
    if n > 0 {
        let before = ticked_times(chart, (n - 1) as nat);
        lemma_notes_after_ticks(chart, (n - 1) as nat);
        assert forall|i: int| 0 <= i < chart.notes.len() implies (#[trigger] ticked_times(
            chart,
            n,
        ).notes[i]) == (Note {
            offset: fallen(chart.notes[i].offset, n),
            kind: chart.notes[i].kind,
        }) by {
            assert(ticked_times(chart, n).notes[i] == aged_note(before.notes[i]));
            assert(fall(fallen(chart.notes[i].offset, (n - 1) as nat)) == fallen(
                chart.notes[i].offset,
                n,
            ));
        }
    }
}

/// Where a due change of tempo stands in `events` and no due change of tempo
/// stands behind it, it decides the tempo.
pub proof fn lemma_bpm_after_last(events: Seq<ChartEvent>, bpm: i32, at: int, to: i32)
    requires
        0 <= at < events.len(),
        is_due(events[at]),
        events[at].kind == ChartEventKind::BpmChange(to),
        forall|k: int|
            at < k < events.len() ==> !(is_due(#[trigger] events[k])
                && events[k].kind is BpmChange),
    ensures
        bpm_after(events, bpm) == to,
    decreases events.len(),
{
    if at < events.len() - 1 {
        let front = events.drop_last();
        assert(!(is_due(events[events.len() - 1]) && events[events.len() - 1].kind is BpmChange));
        assert forall|k: int| at < k < front.len() implies !(is_due(#[trigger] front[k])
            && front[k].kind is BpmChange) by {
            assert(front[k] == events[k]);
        }
        lemma_bpm_after_last(front, bpm, at, to);
    }
}

/// Where no due change of tempo stands in `events`, the tempo stays.
pub proof fn lemma_bpm_after_none(events: Seq<ChartEvent>, bpm: i32)
    requires
        forall|k: int|
            0 <= k < events.len() ==> !(is_due(#[trigger] events[k])
                && events[k].kind is BpmChange),
    ensures
        bpm_after(events, bpm) == bpm,
    decreases events.len(),
{
    if events.len() > 0 {
        let front = events.drop_last();
        assert(!(is_due(events[events.len() - 1]) && events[events.len() - 1].kind is BpmChange));
        assert forall|k: int| 0 <= k < front.len() implies !(is_due(#[trigger] front[k])
            && front[k].kind is BpmChange) by {
            assert(front[k] == events[k]);
        }
        lemma_bpm_after_none(front, bpm);
    }
}

/// Where a due change of scroll speed stands in `events` and no due change
/// of scroll speed stands behind it, it decides the speed to aim for.
pub proof fn lemma_target_after_last(events: Seq<ChartEvent>, target: i64, at: int, to: i64)
    requires
        0 <= at < events.len(),
        is_due(events[at]),
        events[at].kind == ChartEventKind::SpeedChange(to),
        forall|k: int|
            at < k < events.len() ==> !(is_due(#[trigger] events[k])
                && events[k].kind is SpeedChange),
    ensures
        target_after(events, target) == to,
    decreases events.len(),
{
    if at < events.len() - 1 {
        let front = events.drop_last();
        assert(!(is_due(events[events.len() - 1]) && events[events.len() - 1].kind
            is SpeedChange));
        assert forall|k: int| at < k < front.len() implies !(is_due(#[trigger] front[k])
            && front[k].kind is SpeedChange) by {
            assert(front[k] == events[k]);
        }
        lemma_target_after_last(front, target, at, to);
    }
}

/// Where no due change of scroll speed stands in `events`, the speed to aim
/// for stays.
pub proof fn lemma_target_after_none(events: Seq<ChartEvent>, target: i64)
    requires
        forall|k: int|
            0 <= k < events.len() ==> !(is_due(#[trigger] events[k])
                && events[k].kind is SpeedChange),
    ensures
        target_after(events, target) == target,
    decreases events.len(),
{
    if events.len() > 0 {
        let front = events.drop_last();
        assert(!(is_due(events[events.len() - 1]) && events[events.len() - 1].kind
            is SpeedChange));
        assert forall|k: int| 0 <= k < front.len() implies !(is_due(#[trigger] front[k])
            && front[k].kind is SpeedChange) by {
            assert(front[k] == events[k]);
        }
        lemma_target_after_none(front, target);
    }
}

/// Several changes of tempo that become due in the same tick take effect in
/// the chart's order, so the one that stands last in the chart is the one
/// whose tempo holds after the tick.
pub proof fn lemma_last_due_tempo_holds(chart: ChartState, at: int, to: i32)
    requires
        0 <= at < chart.events.len(),
        is_due(aged_event(chart.events[at])),
        chart.events[at].kind == ChartEventKind::BpmChange(to),
        forall|k: int|
            at < k < chart.events.len() ==> !(is_due(aged_event(#[trigger] chart.events[k]))
                && chart.events[k].kind is BpmChange),
    ensures
        ticked(chart).bpm == to,
{
    let aged = chart.events.map_values(|e: ChartEvent| aged_event(e));
    assert forall|k: int| at < k < aged.len() implies !(is_due(#[trigger] aged[k])
        && aged[k].kind is BpmChange) by {
        assert(aged[k] == aged_event(chart.events[k]));
    }
    lemma_bpm_after_last(aged, chart.bpm, at, to);
}

/// Several changes of scroll speed that become due in the same tick take
/// effect in the chart's order, so the one that stands last in the chart is
/// the one whose speed the chart aims for after the tick.
pub proof fn lemma_last_due_speed_holds(chart: ChartState, at: int, to: i64)
    requires
        0 <= at < chart.events.len(),
        is_due(aged_event(chart.events[at])),
        chart.events[at].kind == ChartEventKind::SpeedChange(to),
        forall|k: int|
            at < k < chart.events.len() ==> !(is_due(aged_event(#[trigger] chart.events[k]))
                && chart.events[k].kind is SpeedChange),
    ensures
        ticked(chart).target_speed == to,
{
    let aged = chart.events.map_values(|e: ChartEvent| aged_event(e));
    assert forall|k: int| at < k < aged.len() implies !(is_due(#[trigger] aged[k])
        && aged[k].kind is SpeedChange) by {
        assert(aged[k] == aged_event(chart.events[k]));
    }
    lemma_target_after_last(aged, chart.target_speed, at, to);
}

/// A tick in which no event becomes due changes neither the tempo nor the
/// speed to aim for, and keeps every event, one tick nearer.
pub proof fn lemma_quiet_tick(chart: ChartState)
    requires
        forall|k: int|
            0 <= k < chart.events.len() ==> !is_due(aged_event(#[trigger] chart.events[k])),
    ensures
        ticked(chart).bpm == chart.bpm,
        ticked(chart).target_speed == chart.target_speed,
        ticked(chart).events == chart.events.map_values(|e: ChartEvent| aged_event(e)),
{
    let aged = chart.events.map_values(|e: ChartEvent| aged_event(e));
    assert forall|k: int| 0 <= k < aged.len() implies !is_due(#[trigger] aged[k]) by {
        assert(aged[k] == aged_event(chart.events[k]));
    }
    lemma_bpm_after_none(aged, chart.bpm);
    lemma_target_after_none(aged, chart.target_speed);
    lemma_pending(aged);
}

/// The pending events are the events that are not due: none of them is due,
/// there are no more of them than there are events, and where no event is
/// due they are all the events.
pub proof fn lemma_pending(events: Seq<ChartEvent>)
    ensures
        forall|i: int| 0 <= i < pending(events).len() ==> !is_due(#[trigger] pending(events)[i]),
        pending(events).len() <= events.len(),
        (forall|k: int| 0 <= k < events.len() ==> !is_due(#[trigger] events[k])) ==> pending(
            events,
        ) == events,
    decreases events.len(),
{
    if events.len() > 0 {
        let front = events.drop_last();
        lemma_pending(front);
        if forall|k: int| 0 <= k < events.len() ==> !is_due(#[trigger] events[k]) {
            assert forall|k: int| 0 <= k < front.len() implies !is_due(#[trigger] front[k]) by {
                assert(front[k] == events[k]);
            }
            assert(!is_due(events[events.len() - 1]));
            assert(pending(events) == events);
        }
    }
}

/// An event takes effect once: after a tick no event that is due is left on
/// the chart.
pub proof fn lemma_due_events_leave(chart: ChartState)
    ensures
        forall|i: int|
            0 <= i < ticked(chart).events.len() ==> (#[trigger] ticked(chart).events[i]).offset
                > 0,
{
    lemma_pending(chart.events.map_values(|e: ChartEvent| aged_event(e)));
}

/// The offsets of `notes` never fall from one note to the next.
pub open spec fn notes_ascend(notes: Seq<Note>) -> bool {
    forall|i: int, j: int|
        0 <= i <= j < notes.len() ==> (#[trigger] notes[i]).offset <= (#[trigger] notes[j]).offset
}

/// The offsets of `events` never fall from one event to the next.
pub open spec fn events_ascend(events: Seq<ChartEvent>) -> bool {
    forall|i: int, j: int|
        0 <= i <= j < events.len() ==> (#[trigger] events[i]).offset
            <= (#[trigger] events[j]).offset
}

/// Events that are none of them due after `bound` leave pending events that
/// are none of them due after `bound`.
pub proof fn lemma_pending_bound(events: Seq<ChartEvent>, bound: int)
    requires
        forall|i: int| 0 <= i < events.len() ==> (#[trigger] events[i]).offset <= bound,
    ensures
        forall|i: int|
            0 <= i < pending(events).len() ==> (#[trigger] pending(events)[i]).offset <= bound,
    decreases events.len(),
{
    if events.len() > 0 {
        let front = events.drop_last();
        assert forall|i: int| 0 <= i < front.len() implies (#[trigger] front[i]).offset
            <= bound by {
            assert(front[i] == events[i]);
        }
        lemma_pending_bound(front, bound);
        assert(events[events.len() - 1].offset <= bound);
    }
}

/// Events in order leave pending events in order.
pub proof fn lemma_pending_ascends(events: Seq<ChartEvent>)
    requires
        events_ascend(events),
    ensures
        events_ascend(pending(events)),
    decreases events.len(),
{
    if events.len() > 0 {
        let front = events.drop_last();
        let last = events.last();
        assert forall|i: int, j: int| 0 <= i <= j < front.len() implies (
        #[trigger] front[i]).offset <= (#[trigger] front[j]).offset by {
            assert(front[i] == events[i] && front[j] == events[j]);
        }
        assert forall|i: int| 0 <= i < front.len() implies (#[trigger] front[i]).offset
            <= last.offset by {
            assert(front[i] == events[i]);
            assert(last == events[events.len() - 1]);
        }
        lemma_pending_ascends(front);
        lemma_pending_bound(front, last.offset as int);
    }
}

/// The order in time is kept: a chart whose notes and events are in order
/// stays so through every tick and every consumed note, so that a timeline
/// never needs sorting.
pub proof fn lemma_order_kept(chart: ChartState)
    requires
        notes_ascend(chart.notes),
        events_ascend(chart.events),
    ensures
        notes_ascend(ticked(chart).notes),
        events_ascend(ticked(chart).events),
        notes_ascend(consumed(chart).notes),
        events_ascend(consumed(chart).events),
{
    let aged = chart.events.map_values(|e: ChartEvent| aged_event(e));
    assert forall|i: int, j: int| 0 <= i <= j < aged.len() implies (
    #[trigger] aged[i]).offset <= (#[trigger] aged[j]).offset by {
        assert(chart.events[i].offset <= chart.events[j].offset);
    }
    lemma_pending_ascends(aged);
    let notes = ticked(chart).notes;
    assert forall|i: int, j: int| 0 <= i <= j < notes.len() implies (
    #[trigger] notes[i]).offset <= (#[trigger] notes[j]).offset by {
        assert(chart.notes[i].offset <= chart.notes[j].offset);
    }
    lemma_first_consumable(chart.notes);
    let at = first_consumable(chart.notes);
    if at < chart.notes.len() {
        let left = chart.notes.remove(at);
        assert forall|i: int, j: int| 0 <= i <= j < left.len() implies (
        #[trigger] left[i]).offset <= (#[trigger] left[j]).offset by {
            let from_i = if i < at {
                i
            } else {
                i + 1
            };
            let from_j = if j < at {
                j
            } else {
                j + 1
            };
            assert(left[i] == chart.notes[from_i] && left[j] == chart.notes[from_j]);
            assert(chart.notes[from_i].offset <= chart.notes[from_j].offset);
        }
    }
}

/// A note earns at most 1000 points, and exactly 1000 on the beat; a note
/// near enough to be consumed earns at least 250.
pub proof fn lemma_points_range(offset: i64)
    ensures
        0 <= points_for(offset) <= 1000,
        points_for(0) == 1000,
        consumable(Note { offset, kind: NoteKind::Red }) ==> points_for(offset) >= 250,
{
    let distance = if offset < 0 {
        -offset
    } else {
        offset as int
    };
    let below = distance + 4_500_000;
    assert(0 <= 4_500_000_000int / below <= 1000) by (nonlinear_arith)
        requires
            below >= 4_500_000,
    ;
    if distance < 13_500_000 {
        assert(4_500_000_000int / below >= 250) by (nonlinear_arith)
            requires
                0 < below < 18_000_000,
        ;
    }
}

/// The nearer to the beat a note is consumed, the more it earns: of two
/// offsets, the one that is not farther from zero earns no less.
pub proof fn lemma_points_fall_with_distance(near: i64, far: i64)
    requires
        (if near < 0 {
            -near
        } else {
            near as int
        }) <= (if far < 0 {
            -far
        } else {
            far as int
        }),
    ensures
        points_for(near) >= points_for(far),
{
    let a = (if near < 0 {
        -near
    } else {
        near as int
    }) + 4_500_000;
    let b = (if far < 0 {
        -far
    } else {
        far as int
    }) + 4_500_000;
    assert(4_500_000_000int / a >= 4_500_000_000int / b) by (nonlinear_arith)
        requires
            0 < a <= b,
    ;
}

/// Consuming never lowers the score and takes out at most one note.
pub proof fn lemma_consumed_score(chart: ChartState)
    ensures
        consumed(chart).score >= chart.score,
        chart.notes.len() - 1 <= consumed(chart).notes.len() <= chart.notes.len(),
{
    lemma_first_consumable(chart.notes);
    let at = first_consumable(chart.notes);
    if at < chart.notes.len() {
        lemma_points_range(chart.notes[at].offset);
    }
}

/// The scroll speed comes nearer to the speed it aims for and never passes
/// it; as long as the two differ it does not arrive.
pub proof fn lemma_eased_between(speed: i64, target: i64)
    ensures
        speed <= target ==> speed <= eased(speed, target) <= target,
        speed >= target ==> speed >= eased(speed, target) >= target,
        speed != target ==> eased(speed, target) != target,
{
}

impl Chart {
    /// A fresh chart at tempo `bpm`: unit scroll speed, ramping up, no score.
    pub fn new(notes: Vec<Note>, events: Vec<ChartEvent>, bpm: i32) -> (chart: Chart)
        ensures
            chart@ == (ChartState {
                notes: notes@,
                events: events@,
                bpm,
                speed: MICROS,
                target_speed: RAMP_TARGET,
                score: 0,
            }),
    {
        Chart { notes, events, bpm, speed: MICROS, target_speed: RAMP_TARGET, score: 0 }
    }

    /// Tells whether a press of lane `kind` hits: some note of that lane is
    /// within a beat of being due.
    pub fn should_press(&self, kind: NoteKind) -> (hit: bool)
        ensures
            hit <==> exists|i: int|
                0 <= i < self@.notes.len() && pressable(#[trigger] self@.notes[i], kind),
    {
        let mut i: usize = 0;
        while i < self.notes.len()
            invariant
                i <= self.notes.len(),
                forall|j: int| 0 <= j < i ==> !pressable(#[trigger] self.notes@[j], kind),
            decreases self.notes.len() - i,
        {
            let note: Note = self.notes[i];
            if note.kind == kind && -UNITS_PER_BEAT < note.offset && note.offset <= UNITS_PER_BEAT {
                assert(pressable(self@.notes[i as int], kind));
                return true;
            }
            i += 1;
        }
        false
    }

    /// Tells whether the game is lost: some note is more than a beat overdue.
    pub fn should_lose(&self) -> (lost: bool)
        ensures
            lost <==> exists|i: int|
                0 <= i < self@.notes.len() && missed(#[trigger] self@.notes[i]),
    {
        let mut i: usize = 0;
        while i < self.notes.len()
            invariant
                i <= self.notes.len(),
                forall|j: int| 0 <= j < i ==> !missed(#[trigger] self.notes@[j]),
            decreases self.notes.len() - i,
        {
            if self.notes[i].offset < -UNITS_PER_BEAT {
                assert(missed(self@.notes[i as int]));
                return true;
            }
            i += 1;
        }
        false
    }

    /// Takes out the first note, in the chart's order, that is less than a
    /// beat and a half away, whatever its lane, and adds its points to the
    /// score. Does nothing where there is no such note.
    pub fn consume_note(&mut self)
        ensures
            final(self)@ == consumed(old(self)@),
    {
        let mut i: usize = 0;
        while i < self.notes.len()
            invariant
                *self == *old(self),
                i <= self.notes.len(),
                forall|j: int| 0 <= j < i ==> !consumable(#[trigger] self.notes@[j]),
            decreases self.notes.len() - i,
        {
            let offset: i64 = self.notes[i].offset;
            if -CONSUME_REACH < offset && offset < CONSUME_REACH {
                proof {
                    lemma_first_consumable_is(self.notes@, i as int);
                }
                let won: u64 = points(offset);
                self.score = self.score.saturating_add(won);
                self.notes.remove(i);
                return ;
            }
            i += 1;
        }
        proof {
            lemma_first_consumable_is(self.notes@, self.notes@.len() as int);
        }
    }

    /// Moves the chart on by one tick: every offset falls by a tick, and the
    /// events that thereby become due take effect, in the chart's order, and
    /// leave the chart.
    pub fn update(&mut self)
        ensures
            final(self)@ == ticked(old(self)@),
    {
        let mut notes: Vec<Note> = Vec::new();
        let mut i: usize = 0;
        while i < self.notes.len()
            invariant
                *self == *old(self),
                i <= self.notes.len(),
                notes@.len() == i,
                forall|j: int| 0 <= j < i ==> notes@[j] == aged_note(self.notes@[j]),
            decreases self.notes.len() - i,
        {
            let note: Note = self.notes[i];
            notes.push(Note { offset: later(note.offset), kind: note.kind });
            i += 1;
        }
        let ghost aged = self.events@.map_values(|e: ChartEvent| aged_event(e));
        let mut events: Vec<ChartEvent> = Vec::new();
        let mut bpm: i32 = self.bpm;
        let mut target: i64 = self.target_speed;
        let mut k: usize = 0;
        while k < self.events.len()
            invariant
                *self == *old(self),
                k <= self.events.len(),
                aged == self.events@.map_values(|e: ChartEvent| aged_event(e)),
                events@ == pending(aged.take(k as int)),
                bpm == bpm_after(aged.take(k as int), self.bpm),
                target == target_after(aged.take(k as int), self.target_speed),
            decreases self.events.len() - k,
        {
            let event: ChartEvent = self.events[k];
            let now: ChartEvent = ChartEvent { offset: later(event.offset), kind: event.kind };
            proof {
                assert(aged.take(k + 1).drop_last() == aged.take(k as int));
                assert(aged.take(k + 1).last() == now);
            }
            if now.offset <= 0 {
                match now.kind {
                    ChartEventKind::BpmChange(to) => {
                        bpm = to;
                    },
                    ChartEventKind::SpeedChange(to) => {
                        target = to;
                    },
                }
            } else {
                events.push(now);
            }
            k += 1;
        }
        proof {
            assert(aged.take(k as int) == aged);
            assert(notes@ == self.notes@.map_values(|n: Note| aged_note(n)));
        }
        self.notes = notes;
        self.events = events;
        self.bpm = bpm;
        self.target_speed = target;
    }

    /// Moves the scroll speed a tenth of the way towards the speed it aims
    /// for.
    pub fn ease_speed(&mut self)
        ensures
            final(self)@ == (ChartState {
                speed: eased(old(self).speed, old(self).target_speed) as i64,
                ..old(self)@
            }),
            eased(old(self).speed, old(self).target_speed) == final(self).speed,
    {
        let gap: i128 = self.target_speed as i128 - self.speed as i128;
        let step: i128 = gap / 10;
        self.speed = (self.speed as i128 + step) as i64;
    }
}

/// The offset `offset` one tick later.
pub fn later(offset: i64) -> (r: i64)
    ensures
        r == fall(offset),
{
    if offset >= i64::MIN + UNITS_PER_TICK {
        offset - UNITS_PER_TICK
    } else {
        i64::MIN
    }
}

/// The points for a note consumed at `offset`.
pub fn points(offset: i64) -> (won: u64)
    ensures
        won == points_for(offset),
        won <= 1000,
{
    let distance: i128 = if offset < 0 {
        -(offset as i128)
    } else {
        offset as i128
    };
    let below: i128 = distance + 4_500_000;
    let won: i128 = 4_500_000_000 / below;
    assert(0 <= 4_500_000_000int / (below as int) <= 1000) by (nonlinear_arith)
        requires
            below >= 4_500_000,
    ;
    won as u64
}

} // verus!
