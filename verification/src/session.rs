//! One play-through: the chart, the clock and the feedback for the last key,
//! and the decisions of the game loop.
//!
//! The loop itself lives with whoever owns the terminal and the clock. Each
//! round it calls, in this order, [`Session::begin`], then [`Session::press`]
//! if a key came in, then [`Session::advance`], draws if that says so, and
//! last [`Session::pace`] with the time since the session started, and sleeps
//! for as long as that says.

use vstd::prelude::*;
use crate::chart::{
    consumed,
    eased,
    lemma_consumed_score,
    missed,
    pressable,
    ticked,
    Chart,
    ChartState,
    NoteKind,
};

verus! {

/// How long, in milliseconds, the loop waits for a key in each round.
pub const POLL_MILLIS: u64 = 1;

/// How a play-through ended.
#[derive(Clone, Copy, Debug, PartialEq, Eq, Structural)]
pub enum GameResult {
    Win,
    Lose,
}

/// What a key press means to the game.
#[derive(Clone, Copy, Debug, PartialEq, Eq, Structural)]
pub enum Key {
    /// The key of a lane.
    Lane(NoteKind),
    /// The request to leave.
    Quit,
    /// Any other key.
    Other,
}

/// A play-through in progress. Times are in microseconds.
#[derive(Debug)]
pub struct Session {
    pub chart: Chart,
    /// Ticks that have passed.
    pub ticks: u64,
    /// The time that the ticks so far should have taken, all told.
    pub expected: u64,
    /// The length of the tick in progress.
    pub delay: u64,
    /// The loop is behind the clock and catching up: it neither draws nor
    /// sleeps.
    pub racing: bool,
    /// The lane whose key lights up.
    pub flash: Option<NoteKind>,
    /// How long the light stays on, in thousandths of a tick. The light goes
    /// out once this is negative.
    pub flash_left: i64,
    /// Missed notes do not end the game.
    pub debug: bool,
}

/// A session as a mathematical value.
pub struct SessionState {
    pub chart: ChartState,
    pub ticks: u64,
    pub expected: u64,
    pub delay: u64,
    pub racing: bool,
    pub flash: Option<NoteKind>,
    pub flash_left: i64,
    pub debug: bool,
}

impl View for Session {
    type V = SessionState;

    open spec fn view(&self) -> SessionState {
        SessionState {
            chart: self.chart@,
            ticks: self.ticks,
            expected: self.expected,
            delay: self.delay,
            racing: self.racing,
            flash: self.flash,
            flash_left: self.flash_left,
            debug: self.debug,
        }
    }
}

/// The meaning of the character `c`, typed with or without the control key:
/// control and `c` leave, `a`, `l` and the space bar are the keys of the red,
/// blue and purple lanes.
pub open spec fn key_meaning(c: char, control: bool) -> Key {
    if c == 'c' && control {
        Key::Quit
    } else if c == 'a' {
        Key::Lane(NoteKind::Red)
    } else if c == 'l' {
        Key::Lane(NoteKind::Blue)
    } else if c == ' ' {
        Key::Lane(NoteKind::Purple)
    } else {
        Key::Other
    }
}

/// The length of a tick at tempo `bpm`: an eighteenth of a beat, which is
/// sixty million microseconds over eighteen times the tempo, rounded down.
/// At tempo zero time stands still and the tick is as long as can be said; a
/// negative tempo leaves a tick no length.
pub open spec fn tick_length(bpm: i32) -> u64 {
    if bpm > 0 {
        (60_000_000int / (18 * bpm)) as u64
    } else if bpm == 0 {
        u64::MAX
    } else {
        0
    }
}

/// How the game stands at the start of a round: lost where a note was missed,
/// unless missed notes do not count; else won where no note is left; else
/// open.
pub open spec fn verdict(chart: ChartState, debug: bool) -> Option<GameResult> {
    if !debug && exists|i: int| 0 <= i < chart.notes.len() && missed(#[trigger] chart.notes[i]) {
        Some(GameResult::Lose)
    } else if chart.notes.len() == 0 {
        Some(GameResult::Win)
    } else {
        None
    }
}

/// The session at the start of a round: the tick gets its length from the
/// tempo of the moment.
pub open spec fn begun(s: SessionState) -> SessionState {
    SessionState { delay: tick_length(s.chart.bpm), ..s }
}

/// How long the light of a key stays on at tempo `bpm`, in thousandths of a
/// tick: eighteen for every beat per minute.
pub open spec fn flash_time(bpm: i32) -> i64 {
    (bpm * 18) as i64
}

/// The chart after a press of lane `kind`: where a note of that lane is
/// within a beat of being due, the first note near enough to be consumed is.
pub open spec fn judged(chart: ChartState, kind: NoteKind) -> ChartState {
    if exists|i: int| 0 <= i < chart.notes.len() && pressable(#[trigger] chart.notes[i], kind) {
        consumed(chart)
    } else {
        chart
    }
}

/// The session after the key `key`.
pub open spec fn pressed(s: SessionState, key: Key) -> SessionState {
    match key {
        Key::Lane(kind) => SessionState {
            chart: judged(s.chart, kind),
            flash: Some(kind),
            flash_left: flash_time(s.chart.bpm),
            ..s
        },
        _ => s,
    }
}

/// The session after the timeline moved on by a tick: a light whose time is
/// up has gone out.
pub open spec fn advanced(s: SessionState) -> SessionState {
    SessionState {
        chart: ticked(s.chart),
        flash: if s.flash_left < 0 {
            None
        } else {
            s.flash
        },
        ..s
    }
}

/// How far the clock, at `elapsed`, is ahead of the time the ticks before
/// this one should have taken.
pub open spec fn behind(s: SessionState, elapsed: u64) -> int {
    elapsed - s.expected
}

/// How long to sleep at the end of a round that ends at `elapsed`: the rest
/// of the tick where less than a tick has been used up, a whole tick where the
/// loop is early, and not at all where a tick or more has been used up.
pub open spec fn nap(s: SessionState, elapsed: u64) -> Option<u64> {
    if behind(s, elapsed) <= 0 {
        Some(s.delay)
    } else if behind(s, elapsed) < s.delay {
        Some((s.delay - behind(s, elapsed)) as u64)
    } else {
        None
    }
}

/// `n` and one more, stopping at the greatest count there is.
pub open spec fn one_more(n: u64) -> u64 {
    if n < u64::MAX {
        (n + 1) as u64
    } else {
        n
    }
}

/// The sum of two times, stopping at the greatest time there is.
pub open spec fn time_sum(a: u64, b: u64) -> u64 {
    if a + b <= u64::MAX {
        (a + b) as u64
    } else {
        u64::MAX
    }
}

/// The light's time a tick later, stopping at the least value it can hold.
pub open spec fn flash_fall(left: i64) -> i64 {
    if left - 1000 >= i64::MIN {
        (left - 1000) as i64
    } else {
        i64::MIN
    }
}

/// The session at the end of a round that ends at `elapsed`. The loop races
/// from the moment a round uses up a tick or more, and stops racing with the
/// first round that is late by less than a tick. Every round counts as one
/// tick, racing or not, and adds the length of its tick to the time expected.
pub open spec fn paced(s: SessionState, elapsed: u64) -> SessionState {
    SessionState {
        chart: ChartState {
            speed: eased(s.chart.speed, s.chart.target_speed) as i64,
            ..s.chart
        },
        ticks: one_more(s.ticks),
        expected: time_sum(s.expected, s.delay),
        racing: if behind(s, elapsed) <= 0 {
            s.racing
        } else {
            behind(s, elapsed) >= s.delay
        },
        flash_left: flash_fall(s.flash_left),
        ..s
    }
}

/// A round is one tick, racing or not: it counts one tick and moves the
/// timeline on by exactly one tick, whatever the clock says. Racing changes
/// only what is drawn and slept, never what the game computes.
pub proof fn lemma_round_is_one_tick(s: SessionState, elapsed: u64)
    ensures
        ({
            let after = paced(advanced(begun(s)), elapsed);
            &&& s.ticks < u64::MAX ==> after.ticks == s.ticks + 1
            &&& after.chart.notes == ticked(s.chart).notes
            &&& after.chart.events == ticked(s.chart).events
            &&& after.chart.bpm == ticked(s.chart).bpm
            &&& after.chart.target_speed == ticked(s.chart).target_speed
            &&& after.chart.score == s.chart.score
        }),
{
}

/// The score never falls: no step of a round lowers it, and only a key
/// press can raise it.
pub proof fn lemma_score_never_falls(s: SessionState, key: Key, elapsed: u64)
    ensures
        begun(s).chart.score == s.chart.score,
        pressed(s, key).chart.score >= s.chart.score,
        advanced(s).chart.score == s.chart.score,
        paced(s, elapsed).chart.score == s.chart.score,
{
    lemma_consumed_score(s.chart);
}

/// A round that uses up a tick or more is not slept after and sets the loop
/// racing, so that the next round is not drawn; a round that is late by
/// less than a tick ends the race and sleeps what is left of its tick.
pub proof fn lemma_racing(s: SessionState, elapsed: u64)
    ensures
        behind(s, elapsed) >= s.delay && behind(s, elapsed) > 0 ==> nap(s, elapsed) is None
            && paced(s, elapsed).racing,
        0 < behind(s, elapsed) < s.delay ==> nap(s, elapsed) == Some(
            (s.delay - behind(s, elapsed)) as u64,
        ) && !paced(s, elapsed).racing,
        nap(s, elapsed) matches Some(micros) ==> micros <= s.delay,
{
}

/// The backlog never compounds: from the end of one round to the end of the
/// next, the time by which the clock is ahead of the ticks grows by what the
/// round took and falls by a whole tick, so it shrinks whenever a round
/// takes less than its tick.
pub proof fn lemma_backlog(s: SessionState, elapsed: u64, next: u64)
    requires
        s.expected + s.delay <= u64::MAX,
    ensures
        behind(paced(s, elapsed), next) == behind(s, elapsed) + (next - elapsed) - s.delay,
{
}

/// Tells what a typed character means.
pub fn read_key(c: char, control: bool) -> (key: Key)
    ensures
        key == key_meaning(c, control),
{
    if c == 'c' && control {
        Key::Quit
    } else if c == 'a' {
        Key::Lane(NoteKind::Red)
    } else if c == 'l' {
        Key::Lane(NoteKind::Blue)
    } else if c == ' ' {
        Key::Lane(NoteKind::Purple)
    } else {
        Key::Other
    }
}

/// The length of a tick at tempo `bpm`, in microseconds.
pub fn tick_micros(bpm: i32) -> (micros: u64)
    ensures
        micros == tick_length(bpm),
        bpm > 0 ==> micros <= 3_333_333,
{
    if bpm > 0 {
        let below: i64 = 18 * (bpm as i64);
        assert(0 <= 60_000_000int / (below as int) <= 3_333_333) by (nonlinear_arith)
            requires
                below >= 18,
        ;
        (60_000_000 / below) as u64
    } else if bpm == 0 {
        u64::MAX
    } else {
        0
    }
}

impl Session {
    /// A session that is about to start on `chart`. With `debug` set, missed
    /// notes do not end the game.
    pub fn new(chart: Chart, debug: bool) -> (session: Session)
        ensures
            session@ == (SessionState {
                chart: chart@,
                ticks: 0,
                expected: 0,
                delay: 0,
                racing: false,
                flash: None,
                flash_left: 0,
                debug,
            }),
    {
        Session {
            chart,
            ticks: 0,
            expected: 0,
            delay: 0,
            racing: false,
            flash: None,
            flash_left: 0,
            debug,
        }
    }

    /// Starts a round: fixes the length of its tick and tells whether the
    /// game is over.
    pub fn begin(&mut self) -> (over: Option<GameResult>)
        ensures
            final(self)@ == begun(old(self)@),
            over == verdict(old(self)@.chart, old(self).debug),
    {
        self.delay = tick_micros(self.chart.bpm);
        if !self.debug && self.chart.should_lose() {
            Some(GameResult::Lose)
        } else if self.chart.notes.len() == 0 {
            Some(GameResult::Win)
        } else {
            None
        }
    }

    /// Takes a key press. The key of a lane lights up and, where it hits,
    /// consumes a note; the request to leave ends the game as lost; any other
    /// key does nothing.
    pub fn press(&mut self, key: Key) -> (over: Option<GameResult>)
        ensures
            final(self)@ == pressed(old(self)@, key),
            over == if key == Key::Quit {
                Some(GameResult::Lose)
            } else {
                None
            },
    {
        match key {
            Key::Quit => Some(GameResult::Lose),
            Key::Lane(kind) => {
                self.flash = Some(kind);
                self.flash_left = (self.chart.bpm as i64) * 18;
                if self.chart.should_press(kind) {
                    self.chart.consume_note();
                }
                None
            },
            Key::Other => None,
        }
    }

    /// Moves the timeline on by a tick and tells whether this round is to be
    /// drawn: it is unless the loop is racing.
    pub fn advance(&mut self) -> (draw: bool)
        ensures
            final(self)@ == advanced(old(self)@),
            draw == !old(self).racing,
    {
        if self.flash_left < 0 {
            self.flash = None;
        }
        self.chart.update();
        !self.racing
    }

    /// Ends a round at `elapsed` microseconds since the session started and
    /// tells how long to sleep before the next one, if at all.
    pub fn pace(&mut self, elapsed: u64) -> (sleep: Option<u64>)
        ensures
            final(self)@ == paced(old(self)@, elapsed),
            sleep == nap(old(self)@, elapsed),
    {
        let mut sleep: Option<u64> = Some(self.delay);
        if elapsed > self.expected {
            let late: u64 = elapsed - self.expected;
            if late < self.delay {
                self.racing = false;
                sleep = Some(self.delay - late);
            } else {
                self.racing = true;
                sleep = None;
            }
        }
        self.ticks = self.ticks.saturating_add(1);
        self.flash_left = if self.flash_left >= i64::MIN + 1000 {
            self.flash_left - 1000
        } else {
            i64::MIN
        };
        self.chart.ease_speed();
        self.expected = self.expected.saturating_add(self.delay);
        sleep
    }
}

} // verus!
