//! Selecting and copying rendered text.

use ilar_tui::buffer::{Buffer, BufferCell, Rect};
use ilar_tui::selection::{
    grapheme_columns, highlight_transcript_selection, selected_columns, selected_rows_unchanged,
    selected_transcript_text, selection_point, transcript_cells, RenderedCell, RenderedRow,
    SelectionPoint, TranscriptSelection,
};
use ilar_tui::style::{Color, Style};

fn cells(rows: &[&str], width: usize) -> Vec<RenderedRow> {
    rows.iter()
        .map(|row| {
            let mut out: RenderedRow = row
                .chars()
                .map(|character| match character {
                    ' ' => RenderedCell::Space,
                    _ => RenderedCell::Character(character),
                })
                .take(width)
                .collect();
            while out.len() < width {
                out.push(RenderedCell::Space);
            }
            out
        })
        .collect()
}

/// The cells that the terminal library paints for a text.
fn painted(area: Rect, text: &str) -> Buffer {
    let mut buffer = ratatui::buffer::Buffer::empty(ratatui::layout::Rect::new(
        area.x,
        area.y,
        area.width,
        area.height,
    ));
    buffer.set_string(area.x, area.y, text, ratatui::style::Style::default());
    let content = buffer
        .content
        .iter()
        .map(|cell| BufferCell {
            symbol: cell.symbol().to_string(),
            fg: Color::Reset,
            bg: Color::Reset,
            modifier: Style::plain().modifier,
        })
        .collect();
    Buffer { area, content }
}

#[test]
fn transcript_selection_copies_multiline_text_in_display_order() {
    let rows = cells(&["abc", "wxyz"], 6);
    let forward = TranscriptSelection {
        anchor: SelectionPoint { row: 0, column: 1 },
        focus: SelectionPoint { row: 1, column: 2 },
    };
    let reverse = TranscriptSelection { anchor: forward.focus, focus: forward.anchor };

    assert_eq!(selected_transcript_text(&rows, forward).as_deref(), Some("bc\nwxy"));
    assert_eq!(selected_transcript_text(&rows, reverse).as_deref(), Some("bc\nwxy"));
}

#[test]
fn transcript_selection_ignores_clicks_and_trailing_viewport_padding() {
    let rows = cells(&["ilar hello"], 16);
    let click = TranscriptSelection {
        anchor: SelectionPoint { row: 0, column: 3 },
        focus: SelectionPoint { row: 0, column: 3 },
    };
    let drag = TranscriptSelection {
        anchor: SelectionPoint { row: 0, column: 5 },
        focus: SelectionPoint { row: 0, column: 15 },
    };

    assert_eq!(selected_transcript_text(&rows, click), None);
    assert_eq!(selected_transcript_text(&rows, drag).as_deref(), Some("hello"));
}

#[test]
fn transcript_mouse_points_are_clamped_to_the_visible_text_area() {
    let area = Rect::new(10, 4, 8, 3);
    assert_eq!(
        selection_point(area, 12, 5, false),
        Some(SelectionPoint { row: 1, column: 2 })
    );
    assert_eq!(selection_point(area, 9, 5, false), None);
    assert_eq!(
        selection_point(area, 30, 20, true),
        Some(SelectionPoint { row: 2, column: 7 })
    );
}

#[test]
fn transcript_selection_preserves_wide_graphemes_without_phantom_spaces() {
    let area = Rect::new(0, 0, 4, 1);
    let mut buffer = painted(area, "界B");
    let rows = transcript_cells(&buffer, area);
    let selection = TranscriptSelection {
        anchor: SelectionPoint { row: 0, column: 1 },
        focus: SelectionPoint { row: 0, column: 2 },
    };

    assert_eq!(selected_transcript_text(&rows, selection).as_deref(), Some("界B"));
    highlight_transcript_selection(&mut buffer, area, selection, &rows);
    for column in 0..=2 {
        let at = buffer.index_of(column, 0).unwrap();
        assert!(buffer.content[at].modifier.reversed);
    }
    let after = buffer.index_of(3, 0).unwrap();
    assert!(!buffer.content[after].modifier.reversed);
}

#[test]
fn transcript_selection_does_not_copy_vertical_viewport_padding() {
    let rows = cells(&["hello"], 8);
    let selection = TranscriptSelection {
        anchor: SelectionPoint { row: 0, column: 0 },
        focus: SelectionPoint { row: 4, column: 7 },
    };
    assert_eq!(selected_transcript_text(&rows, selection).as_deref(), Some("hello"));
}

#[test]
fn transcript_selection_ignores_changes_outside_selected_rows() {
    let previous = cells(&["stable", "thinking one"], 16);
    let current = cells(&["stable", "thinking two"], 16);
    let stable_selection = TranscriptSelection {
        anchor: SelectionPoint { row: 0, column: 0 },
        focus: SelectionPoint { row: 0, column: 3 },
    };
    let volatile_selection = TranscriptSelection {
        anchor: SelectionPoint { row: 1, column: 0 },
        focus: SelectionPoint { row: 1, column: 3 },
    };

    assert!(selected_rows_unchanged(&previous, &current, stable_selection));
    assert!(!selected_rows_unchanged(&previous, &current, volatile_selection));
}

#[test]
fn a_wide_character_is_one_lead_and_its_continuations() {
    let area = Rect::new(2, 1, 5, 1);
    let rows = transcript_cells(&painted(area, "a界 b"), area);
    assert_eq!(
        rows,
        vec![vec![
            RenderedCell::Character('a'),
            RenderedCell::Character('界'),
            RenderedCell::Continuation { lead: 1 },
            RenderedCell::Space,
            RenderedCell::Character('b'),
        ]]
    );
    assert_eq!(grapheme_columns(&rows[0], 2, 2), (1, 2));
    assert_eq!(grapheme_columns(&rows[0], 0, 1), (0, 2));
    // Beyond the row there is nothing to widen.
    assert_eq!(grapheme_columns(&rows[0], 2, 9), (1, 9));
}

#[test]
fn a_cluster_of_several_characters_is_copied_whole() {
    let area = Rect::new(0, 0, 3, 1);
    let rows = transcript_cells(&painted(area, "e\u{301}x"), area);
    assert_eq!(rows[0][0], RenderedCell::Text("e\u{301}".to_string()));
    let selection = TranscriptSelection {
        anchor: SelectionPoint { row: 0, column: 0 },
        focus: SelectionPoint { row: 0, column: 1 },
    };
    assert_eq!(selected_transcript_text(&rows, selection).as_deref(), Some("e\u{301}x"));
}

#[test]
fn the_columns_of_a_selection_are_those_of_its_row() {
    let selection = TranscriptSelection {
        anchor: SelectionPoint { row: 3, column: 4 },
        focus: SelectionPoint { row: 1, column: 2 },
    };
    assert_eq!(selection.ordered().0, SelectionPoint { row: 1, column: 2 });
    assert_eq!(selected_columns(selection, 0, 9), None);
    assert_eq!(selected_columns(selection, 1, 9), Some((2, 8)));
    assert_eq!(selected_columns(selection, 2, 9), Some((0, 8)));
    assert_eq!(selected_columns(selection, 3, 9), Some((0, 4)));
    assert_eq!(selected_columns(selection, 3, 3), Some((0, 2)));
    assert_eq!(selected_columns(selection, 4, 9), None);
    assert_eq!(selected_columns(selection, 2, 0), None);
}

#[test]
fn an_area_without_cells_has_no_points() {
    assert_eq!(selection_point(Rect::new(3, 3, 0, 4), 3, 3, true), None);
    assert_eq!(selection_point(Rect::new(3, 3, 4, 0), 3, 3, true), None);
    assert_eq!(
        selection_point(Rect::new(3, 3, 4, 4), 0, 0, true),
        Some(SelectionPoint { row: 0, column: 0 })
    );
}
