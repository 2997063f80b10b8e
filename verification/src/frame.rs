//! What a round shows: two columns of cells, without colour or glyph.
//!
//! The playfield is 40 characters wide and 35 rows high, split into a left
//! and a right column. Red notes fall in the left column, blue notes in the
//! right one, purple notes in both. A note is drawn as a head with a
//! two-row trail above it. Row 0 is the top; the bar on which notes are due
//! takes rows 30 and 31. Under the last row stands a foot line.

use vstd::prelude::*;
use crate::chart::{Chart, ChartState, Note, NoteKind};

verus! {

/// The row of the foot line, which is also the number of rows above it.
pub const ROWS: usize = 35;

/// The upper row of the bar.
pub const BAR_TOP: usize = 30;

/// The lower row of the bar.
pub const BAR_BOTTOM: usize = 31;

/// What an offset times a scroll speed is counted in: units per beat times
/// millionths, so this much is one row.
pub const ROW_SCALE: i128 = 9_000_000_000_000;

/// Four rows and a half: how far above the foot line a note stands when it is
/// due.
pub const DUE_HEIGHT: i128 = 40_500_000_000_000;

/// A column of the playfield.
#[derive(Clone, Copy, Debug, PartialEq, Eq, Structural)]
pub enum Side {
    Left,
    Right,
}

/// The two looks of a note's head, which alternate as the note falls.
#[derive(Clone, Copy, Debug, PartialEq, Eq, Structural)]
pub enum Glyph {
    Star,
    Caret,
}

/// What stands in one row of one column.
#[derive(Clone, Copy, Debug, PartialEq, Eq, Structural)]
pub enum Cell {
    /// Nothing.
    Empty,
    /// The bar, lit in the colour of a lane or unlit.
    Bar { lit: Option<NoteKind> },
    /// The head of a note.
    Head { kind: NoteKind, glyph: Glyph },
    /// The row above a head.
    Trail { kind: NoteKind },
    /// The row above that.
    Tail { kind: NoteKind },
    /// The score line.
    Score { score: u64 },
    /// The part of the top row that holds no text.
    Blank,
    /// The foot line.
    Foot,
}

/// What a round shows: the cells of both columns from the top row down, the
/// foot line last.
#[derive(Debug)]
pub struct Frame {
    pub left: Vec<Cell>,
    pub right: Vec<Cell>,
}

/// `n` over `d`, rounded towards zero.
pub open spec fn toward_zero(n: int, d: int) -> int {
    if n >= 0 {
        n / d
    } else {
        -((-n) / d)
    }
}

/// What is left of `n` when as many whole `d` as `toward_zero` counts are
/// taken away; it has the sign of `n`.
pub open spec fn left_over(n: int, d: int) -> int {
    if n >= 0 {
        n % d
    } else {
        -((-n) % d)
    }
}

/// The row of a note: its offset times the scroll speed gives its height in
/// rows above the place where it is due, four rows and a half above the foot
/// line; the height above the foot line, rounded towards zero, is counted up
/// from there.
pub open spec fn note_row(offset: i64, speed: i64) -> int {
    35 - toward_zero(offset * speed + 40_500_000_000_000, 9_000_000_000_000)
}

/// The look of a note's head: a star in the first half of every row of its
/// fall, the half included, and a caret in the second; above the place where
/// it is due, that is. Past it, a star only where the height is a whole
/// number of rows.
pub open spec fn note_glyph(offset: i64, speed: i64) -> Glyph {
    let part = left_over(offset * speed, 9_000_000_000_000);
    if 0 <= part <= 4_500_000_000_000 {
        Glyph::Star
    } else {
        Glyph::Caret
    }
}

/// Notes of lane `kind` are drawn in column `side`.
pub open spec fn shows_on(kind: NoteKind, side: Side) -> bool {
    match kind {
        NoteKind::Red => side == Side::Left,
        NoteKind::Blue => side == Side::Right,
        NoteKind::Purple => true,
    }
}

/// The bar in column `side` while the key of `flash` is lit: lit where that
/// lane is drawn in the column.
pub open spec fn bar(side: Side, flash: Option<NoteKind>) -> Cell {
    match flash {
        Some(kind) if shows_on(kind, side) => Cell::Bar { lit: Some(kind) },
        _ => Cell::Bar { lit: None },
    }
}

/// The rows of column `side` with no note on them.
pub open spec fn bare_column(side: Side, flash: Option<NoteKind>) -> Seq<Cell> {
    Seq::new(
        35,
        |row: int|
            if row == 30 || row == 31 {
                bar(side, flash)
            } else {
                Cell::Empty
            },
    )
}

/// `cells` with `note` drawn over them at scroll speed `speed`. Nothing is
/// drawn where the note belongs to the other column or its head is off the
/// rows; the trail is drawn only where both of its rows are there.
pub open spec fn with_note(cells: Seq<Cell>, side: Side, note: Note, speed: i64) -> Seq<Cell> {
    let row = note_row(note.offset, speed);
    if 0 <= row < 35 && shows_on(note.kind, side) {
        let head = cells.update(
            row,
            Cell::Head { kind: note.kind, glyph: note_glyph(note.offset, speed) },
        );
        if row > 1 {
            head.update(row - 1, Cell::Trail { kind: note.kind }).update(
                row - 2,
                Cell::Tail { kind: note.kind },
            )
        } else {
            head
        }
    } else {
        cells
    }
}

/// `cells` with `notes` drawn over them one after the other, so that a later
/// note covers an earlier one.
pub open spec fn with_notes(cells: Seq<Cell>, side: Side, notes: Seq<Note>, speed: i64) -> Seq<
    Cell,
>
    decreases notes.len(),
{
    if notes.len() == 0 {
        cells
    } else {
        with_note(with_notes(cells, side, notes.drop_last(), speed), side, notes.last(), speed)
    }
}

/// What the top row of column `side` holds.
pub open spec fn top_cell(side: Side, score: u64) -> Cell {
    match side {
        Side::Left => Cell::Score { score },
        Side::Right => Cell::Blank,
    }
}

/// Column `side` of the chart while the key of `flash` is lit: the bar, the
/// notes over it in the chart's order, the top row over those, and the foot
/// line below.
pub open spec fn column(chart: ChartState, flash: Option<NoteKind>, side: Side) -> Seq<Cell> {
    with_notes(bare_column(side, flash), side, chart.notes, chart.speed).update(
        0,
        top_cell(side, chart.score),
    ).push(Cell::Foot)
}

/// How many characters stand beside the playfield on either side in a
/// terminal `width` characters wide: half the width less half the playfield.
/// `None` where the terminal is too narrow for the playfield.
pub open spec fn margin_of(width: u16) -> Option<usize> {
    if width / 2 >= 20 {
        Some((width / 2 - 20) as usize)
    } else {
        None
    }
}

/// Drawing notes over a column adds no row and takes none away.
pub proof fn lemma_with_notes_len(cells: Seq<Cell>, side: Side, notes: Seq<Note>, speed: i64)
    requires
        cells.len() == 35,
    ensures
        with_notes(cells, side, notes, speed).len() == 35,
    decreases notes.len(),
{
    if notes.len() > 0 {
        lemma_with_notes_len(cells, side, notes.drop_last(), speed);
    }
}

/// A column is as many cells as the playfield has rows and one more: the top
/// row first, which no note covers, and the foot line last.
pub proof fn lemma_column_shape(chart: ChartState, flash: Option<NoteKind>, side: Side)
    ensures
        column(chart, flash, side).len() == 36,
        column(chart, flash, side)[0] == top_cell(side, chart.score),
        column(chart, flash, side)[35] == Cell::Foot,
{
    lemma_with_notes_len(bare_column(side, flash), side, chart.notes, chart.speed);
}

/// The note that the chart declares last is covered by no other: where its
/// head is on a row below the top one, the column shows it there, and its
/// trail above it where the trail is drawn and clear of the top row.
pub proof fn lemma_last_note_shows(chart: ChartState, flash: Option<NoteKind>, side: Side)
    requires
        chart.notes.len() > 0,
        shows_on(chart.notes.last().kind, side),
        1 <= note_row(chart.notes.last().offset, chart.speed) < 35,
    ensures
        ({
            let note = chart.notes.last();
            let row = note_row(note.offset, chart.speed);
            &&& column(chart, flash, side)[row] == Cell::Head {
                kind: note.kind,
                glyph: note_glyph(note.offset, chart.speed),
            }
            &&& row > 1 ==> column(chart, flash, side)[row - 1] == Cell::Trail { kind: note.kind }
            &&& row > 2 ==> column(chart, flash, side)[row - 2] == Cell::Tail { kind: note.kind }
        }),
{
    lemma_with_notes_len(bare_column(side, flash), side, chart.notes.drop_last(), chart.speed);
}

/// The width of the playfield in characters.
pub fn game_width() -> (width: usize)
    ensures
        width == 40,
{
    40
}

/// The height of the playfield in rows.
pub fn game_height() -> (height: usize)
    ensures
        height == 35,
{
    35
}

/// The margin beside the playfield in a terminal `width` characters wide.
pub fn margin(width: u16) -> (r: Option<usize>)
    ensures
        r == margin_of(width),
{
    let half: usize = (width / 2) as usize;
    if half >= game_width() / 2 {
        Some(half - game_width() / 2)
    } else {
        None
    }
}

/// Tells whether notes of lane `kind` are drawn in column `side`.
pub fn drawn_on(kind: NoteKind, side: Side) -> (r: bool)
    ensures
        r == shows_on(kind, side),
{
    match kind {
        NoteKind::Red => side == Side::Left,
        NoteKind::Blue => side == Side::Right,
        NoteKind::Purple => true,
    }
}

/// The row of a note.
pub fn row_of(offset: i64, speed: i64) -> (row: i128)
    ensures
        row == note_row(offset, speed),
{
    let height: i128 = scroll(offset, speed) + DUE_HEIGHT;
    35 - height / ROW_SCALE
}

/// The look of a note's head.
pub fn glyph_of(offset: i64, speed: i64) -> (glyph: Glyph)
    ensures
        glyph == note_glyph(offset, speed),
{
    let part: i128 = scroll(offset, speed) % ROW_SCALE;
    if 0 <= part && part <= ROW_SCALE / 2 {
        Glyph::Star
    } else {
        Glyph::Caret
    }
}

/// An offset times a scroll speed.
fn scroll(offset: i64, speed: i64) -> (product: i128)
    ensures
        product == offset * speed,
        -0x4000_0000_0000_0000_0000_0000_0000_0000 <= product
            <= 0x4000_0000_0000_0000_0000_0000_0000_0000,
{
    let a: i128 = offset as i128;
    let b: i128 = speed as i128;
    assert(-0x4000_0000_0000_0000_0000_0000_0000_0000 <= a * b
        <= 0x4000_0000_0000_0000_0000_0000_0000_0000) by (nonlinear_arith)
        requires
            -0x8000_0000_0000_0000 <= a <= 0x8000_0000_0000_0000,
            -0x8000_0000_0000_0000 <= b <= 0x8000_0000_0000_0000,
    ;
    a * b
}

impl Chart {
    /// One column of what the chart shows while the key of `flash` is lit.
    pub fn render_column(&self, flash: Option<NoteKind>, side: Side) -> (cells: Vec<Cell>)
        ensures
            cells@ == column(self@, flash, side),
    {
        let lit: Cell = match flash {
            Some(kind) => {
                if drawn_on(kind, side) {
                    Cell::Bar { lit: Some(kind) }
                } else {
                    Cell::Bar { lit: None }
                }
            },
            None => Cell::Bar { lit: None },
        };
        let mut cells: Vec<Cell> = Vec::new();
        let mut row: usize = 0;
        while row < ROWS
            invariant
                row <= ROWS,
                lit == bar(side, flash),
                cells@ == bare_column(side, flash).take(row as int),
            decreases ROWS - row,
        {
            if row == BAR_TOP || row == BAR_BOTTOM {
                cells.push(lit);
            } else {
                cells.push(Cell::Empty);
            }
            row += 1;
        }
        assert(bare_column(side, flash).take(35) == bare_column(side, flash));
        let mut i: usize = 0;
        while i < self.notes.len()
            invariant
                i <= self.notes.len(),
                cells@.len() == 35,
                cells@ == with_notes(
                    bare_column(side, flash),
                    side,
                    self.notes@.take(i as int),
                    self.speed,
                ),
            decreases self.notes.len() - i,
        {
            let note: Note = self.notes[i];
            proof {
                assert(self.notes@.take(i + 1).drop_last() == self.notes@.take(i as int));
                assert(self.notes@.take(i + 1).last() == note);
            }
            let at: i128 = row_of(note.offset, self.speed);
            if 0 <= at && at < 35 && drawn_on(note.kind, side) {
                let head: usize = at as usize;
                cells.set(
                    head,
                    Cell::Head { kind: note.kind, glyph: glyph_of(note.offset, self.speed) },
                );
                if head > 1 {
                    cells.set(head - 1, Cell::Trail { kind: note.kind });
                    cells.set(head - 2, Cell::Tail { kind: note.kind });
                }
            }
            i += 1;
        }
        assert(self.notes@.take(i as int) == self.notes@);
        let top: Cell = match side {
            Side::Left => Cell::Score { score: self.score },
            Side::Right => Cell::Blank,
        };
        cells.set(0, top);
        cells.push(Cell::Foot);
        cells
    }

    /// What the chart shows while the key of `flash` is lit.
    pub fn render(&self, flash: Option<NoteKind>) -> (frame: Frame)
        ensures
            frame.left@ == column(self@, flash, Side::Left),
            frame.right@ == column(self@, flash, Side::Right),
    {
        Frame {
            left: self.render_column(flash, Side::Left),
            right: self.render_column(flash, Side::Right),
        }
    }
}

} // verus!
