use rhythm_core::chart::{Chart, Note, NoteKind};
use rhythm_core::frame::{
    drawn_on, game_height, game_width, glyph_of, margin, row_of, Cell, Glyph, Side, BAR_BOTTOM,
    BAR_TOP, ROWS,
};
use rhythm_core::units::{MICROS, UNITS_PER_BEAT};

const BEAT: i64 = UNITS_PER_BEAT;

fn chart_of(notes: Vec<Note>) -> Chart {
    Chart::new(notes, Vec::new(), 120)
}

fn bare(lit: Option<NoteKind>) -> Vec<Cell> {
    let mut cells = vec![Cell::Empty; 35];
    cells[30] = Cell::Bar { lit };
    cells[31] = Cell::Bar { lit };
    cells.push(Cell::Foot);
    cells
}

#[test]
fn the_playfield_is_forty_by_thirty_five() {
    assert_eq!(game_width(), 40);
    assert_eq!(game_height(), 35);
    assert_eq!(ROWS, game_height());
    assert_eq!((BAR_TOP, BAR_BOTTOM), (game_height() - 5, game_height() - 4));
}

#[test]
fn the_margin_is_half_of_what_the_playfield_leaves() {
    assert_eq!(margin(80), Some(20));
    assert_eq!(margin(81), Some(20));
    assert_eq!(margin(40), Some(0));
    assert_eq!(margin(41), Some(0));
    assert_eq!(margin(39), None);
    assert_eq!(margin(0), None);
    assert_eq!(margin(u16::MAX), Some(32_747));
}

#[test]
fn lanes_have_their_columns() {
    assert!(drawn_on(NoteKind::Red, Side::Left));
    assert!(!drawn_on(NoteKind::Red, Side::Right));
    assert!(!drawn_on(NoteKind::Blue, Side::Left));
    assert!(drawn_on(NoteKind::Blue, Side::Right));
    assert!(drawn_on(NoteKind::Purple, Side::Left));
    assert!(drawn_on(NoteKind::Purple, Side::Right));
}

#[test]
fn a_due_note_stands_on_the_lower_bar_row() {
    // Height 4.5 above the foot line, rounded towards zero: row 35 - 4.
    assert_eq!(row_of(0, MICROS), 31);
    assert_eq!(row_of(0, 8 * MICROS), 31);
    // Half a row higher the height is 5.
    assert_eq!(row_of(BEAT / 2, MICROS), 30);
    assert_eq!(row_of(BEAT / 2 - 1, MICROS), 31);
    // A beat ahead at eightfold speed: 8 rows up.
    assert_eq!(row_of(BEAT, 8 * MICROS), 23);
    // Overdue: 4.5 - 1 = 3.5.
    assert_eq!(row_of(-BEAT, MICROS), 32);
    // 4.5 - 4.5 = 0 and 4.5 - 5 = -0.5, which rounds to zero as well.
    assert_eq!(row_of(-4 * BEAT - BEAT / 2, MICROS), 35);
    assert_eq!(row_of(-5 * BEAT, MICROS), 35);
    assert_eq!(row_of(-5 * BEAT - BEAT / 2, MICROS), 36);
    // The top row: height 35 to just under 36.
    assert_eq!(row_of(30 * BEAT + BEAT / 2, MICROS), 0);
    assert_eq!(row_of(31 * BEAT + BEAT / 2 - 1, MICROS), 0);
    assert_eq!(row_of(31 * BEAT + BEAT / 2, MICROS), -1);
    assert_eq!(row_of(BEAT, 0), 31);
    assert_eq!(row_of(-BEAT, -MICROS), 30);
}

#[test]
fn rows_at_the_ends_of_the_range() {
    let top: i128 = (i64::MAX as i128 * i64::MAX as i128 + 40_500_000_000_000) / 9_000_000_000_000;
    assert_eq!(row_of(i64::MAX, i64::MAX), 35 - top);
    assert_eq!(row_of(i64::MIN, i64::MAX), 35 + (i64::MAX as i128 * (1i128 << 63) - 40_500_000_000_000) / 9_000_000_000_000);
    assert_eq!(row_of(i64::MIN, i64::MIN), 35 - ((1i128 << 126) + 40_500_000_000_000) / 9_000_000_000_000);
}

#[test]
fn the_head_alternates_by_half_rows() {
    assert_eq!(glyph_of(0, MICROS), Glyph::Star);
    assert_eq!(glyph_of(BEAT / 2, MICROS), Glyph::Star);
    assert_eq!(glyph_of(BEAT / 2 + 1, MICROS), Glyph::Caret);
    assert_eq!(glyph_of(BEAT - 1, MICROS), Glyph::Caret);
    assert_eq!(glyph_of(BEAT, MICROS), Glyph::Star);
    assert_eq!(glyph_of(BEAT / 4, 3 * MICROS), Glyph::Caret);
    assert_eq!(glyph_of(BEAT / 4, 4 * MICROS), Glyph::Star);
    // Past the due place only whole rows give a star.
    assert_eq!(glyph_of(-1, MICROS), Glyph::Caret);
    assert_eq!(glyph_of(-BEAT / 2, MICROS), Glyph::Caret);
    assert_eq!(glyph_of(-BEAT, MICROS), Glyph::Star);
    assert_eq!(glyph_of(-BEAT, -MICROS), Glyph::Star);
    assert_eq!(glyph_of(i64::MIN, i64::MIN), Glyph::Caret);
}

#[test]
fn an_empty_chart_shows_bar_score_and_foot() {
    let frame = chart_of(vec![]).render(None);
    let mut left = bare(None);
    left[0] = Cell::Score { score: 0 };
    let mut right = bare(None);
    right[0] = Cell::Blank;
    assert_eq!(frame.left, left);
    assert_eq!(frame.right, right);
    assert_eq!(frame.left.len(), game_height() + 1);
}

#[test]
fn the_bar_lights_up_in_the_column_of_the_key() {
    let chart = chart_of(vec![]);
    let lit = |kind: NoteKind| Cell::Bar { lit: Some(kind) };
    let unlit = Cell::Bar { lit: None };
    let frame = chart.render(Some(NoteKind::Red));
    assert_eq!((frame.left[30], frame.left[31]), (lit(NoteKind::Red), lit(NoteKind::Red)));
    assert_eq!((frame.right[30], frame.right[31]), (unlit, unlit));
    let frame = chart.render(Some(NoteKind::Blue));
    assert_eq!((frame.left[30], frame.left[31]), (unlit, unlit));
    assert_eq!((frame.right[30], frame.right[31]), (lit(NoteKind::Blue), lit(NoteKind::Blue)));
    let frame = chart.render(Some(NoteKind::Purple));
    assert_eq!((frame.left[30], frame.left[31]), (lit(NoteKind::Purple), lit(NoteKind::Purple)));
    assert_eq!((frame.right[30], frame.right[31]), (lit(NoteKind::Purple), lit(NoteKind::Purple)));
}

#[test]
fn a_note_is_a_head_with_a_trail_above() {
    let mut chart = chart_of(vec![Note { offset: 10 * BEAT, kind: NoteKind::Red }]);
    chart.score = 4321;
    let frame = chart.render(None);
    let mut left = bare(None);
    left[0] = Cell::Score { score: 4321 };
    left[21] = Cell::Head { kind: NoteKind::Red, glyph: Glyph::Star };
    left[20] = Cell::Trail { kind: NoteKind::Red };
    left[19] = Cell::Tail { kind: NoteKind::Red };
    let mut right = bare(None);
    right[0] = Cell::Blank;
    assert_eq!(frame.left, left);
    assert_eq!(frame.right, right);
}

#[test]
fn a_purple_note_is_drawn_in_both_columns() {
    let chart = chart_of(vec![Note { offset: 10 * BEAT + 2 * BEAT / 3, kind: NoteKind::Purple }]);
    let frame = chart.render(Some(NoteKind::Blue));
    for column in [&frame.left, &frame.right] {
        assert_eq!(column[20], Cell::Head { kind: NoteKind::Purple, glyph: Glyph::Caret });
        assert_eq!(column[19], Cell::Trail { kind: NoteKind::Purple });
        assert_eq!(column[18], Cell::Tail { kind: NoteKind::Purple });
        assert_eq!(column[21], Cell::Empty);
    }
}

#[test]
fn a_note_covers_the_bar_and_a_later_note_covers_an_earlier() {
    let chart = chart_of(vec![
        Note { offset: 0, kind: NoteKind::Blue },
        Note { offset: BEAT, kind: NoteKind::Blue },
        Note { offset: 2 * BEAT, kind: NoteKind::Red },
    ]);
    let frame = chart.render(Some(NoteKind::Blue));
    // The first note: head on 31, trail on 30 and 29. The second: head on 30,
    // trail on 29 and 28.
    assert_eq!(frame.right[31], Cell::Head { kind: NoteKind::Blue, glyph: Glyph::Star });
    assert_eq!(frame.right[30], Cell::Head { kind: NoteKind::Blue, glyph: Glyph::Star });
    assert_eq!(frame.right[29], Cell::Trail { kind: NoteKind::Blue });
    assert_eq!(frame.right[28], Cell::Tail { kind: NoteKind::Blue });
    assert_eq!(frame.right[27], Cell::Empty);
    assert_eq!(frame.left[29], Cell::Head { kind: NoteKind::Red, glyph: Glyph::Star });
    assert_eq!(frame.left[30], Cell::Bar { lit: None });

    let chart = chart_of(vec![
        Note { offset: BEAT, kind: NoteKind::Blue },
        Note { offset: 0, kind: NoteKind::Blue },
    ]);
    let frame = chart.render(None);
    assert_eq!(frame.right[31], Cell::Head { kind: NoteKind::Blue, glyph: Glyph::Star });
    assert_eq!(frame.right[30], Cell::Trail { kind: NoteKind::Blue });
    assert_eq!(frame.right[29], Cell::Tail { kind: NoteKind::Blue });
    assert_eq!(frame.right[28], Cell::Tail { kind: NoteKind::Blue });
}

#[test]
fn near_the_top_the_trail_is_left_out_and_the_score_stays() {
    let row_one = 29 * BEAT + BEAT / 2;
    let row_two = 28 * BEAT + BEAT / 2;
    let row_zero = 30 * BEAT + BEAT / 2;
    let chart = chart_of(vec![Note { offset: row_one, kind: NoteKind::Red }]);
    let frame = chart.render(None);
    assert_eq!(frame.left[1], Cell::Head { kind: NoteKind::Red, glyph: Glyph::Star });
    assert_eq!(frame.left[0], Cell::Score { score: 0 });
    let chart = chart_of(vec![Note { offset: row_two, kind: NoteKind::Red }]);
    let frame = chart.render(None);
    assert_eq!(frame.left[2], Cell::Head { kind: NoteKind::Red, glyph: Glyph::Star });
    assert_eq!(frame.left[1], Cell::Trail { kind: NoteKind::Red });
    assert_eq!(frame.left[0], Cell::Score { score: 0 });
    let chart = chart_of(vec![Note { offset: row_zero, kind: NoteKind::Purple }]);
    let frame = chart.render(None);
    assert_eq!(frame.left[0], Cell::Score { score: 0 });
    assert_eq!(frame.right[0], Cell::Blank);
    assert_eq!(frame.left[1], Cell::Empty);
}

#[test]
fn notes_off_the_rows_are_not_drawn() {
    let chart = chart_of(vec![
        Note { offset: 100 * BEAT, kind: NoteKind::Red },
        Note { offset: -5 * BEAT, kind: NoteKind::Red },
        Note { offset: -100 * BEAT, kind: NoteKind::Blue },
    ]);
    let frame = chart.render(None);
    let mut left = bare(None);
    left[0] = Cell::Score { score: 0 };
    let mut right = bare(None);
    right[0] = Cell::Blank;
    assert_eq!(frame.left, left);
    assert_eq!(frame.right, right);
    // Just on the last row: height 0.5 and its trail above.
    let chart = chart_of(vec![Note { offset: -4 * BEAT, kind: NoteKind::Red }]);
    let frame = chart.render(None);
    assert_eq!(frame.left[35], Cell::Foot);
    assert_eq!(frame.left[34], Cell::Empty);
    let chart = chart_of(vec![Note { offset: -3 * BEAT - BEAT / 2, kind: NoteKind::Red }]);
    let frame = chart.render(None);
    assert_eq!(frame.left[34], Cell::Head { kind: NoteKind::Red, glyph: Glyph::Caret });
    assert_eq!(frame.left[33], Cell::Trail { kind: NoteKind::Red });
    assert_eq!(frame.left[32], Cell::Tail { kind: NoteKind::Red });
}

#[test]
fn the_scroll_speed_spreads_the_notes() {
    let mut chart = chart_of(vec![Note { offset: 2 * BEAT, kind: NoteKind::Red }]);
    assert_eq!(chart.render_column(None, Side::Left)[29], Cell::Head { kind: NoteKind::Red, glyph: Glyph::Star });
    chart.speed = 8 * MICROS;
    assert_eq!(chart.render_column(None, Side::Left)[15], Cell::Head { kind: NoteKind::Red, glyph: Glyph::Star });
    chart.speed = MICROS / 4;
    assert_eq!(chart.render_column(None, Side::Left)[30], Cell::Head { kind: NoteKind::Red, glyph: Glyph::Star });
    assert_eq!(chart.render_column(None, Side::Right)[30], Cell::Bar { lit: None });
}
