use lux::buffer::Buffer;
use lux::editor::{
    line_column, next_word_boundary, previous_word_boundary, word_char_range, CaretSnapshot,
    CaretState, EditHistory, EditTransaction, MAX_UNDO_DEPTH,
};

#[test]
fn selects_all_characters() {
    let mut buffer = Buffer::new();
    buffer.insert(0, "abc");
    let mut caret = CaretState::default();
    caret.select_all(&buffer);
    assert_eq!(caret.selection_range().unwrap_or(0..0), 0..3);
}

#[test]
fn move_word_right_skips_to_next_word_boundary() {
    let mut buffer = Buffer::new();
    buffer.insert(0, "alpha beta");
    let mut caret = CaretState::default();
    caret.move_word_right(&buffer, false);
    assert_eq!(caret.caret_char(), 5);
    caret.move_word_right(&buffer, false);
    assert_eq!(caret.caret_char(), 10);
}

#[test]
fn move_word_left_skips_to_previous_word_boundary() {
    let mut buffer = Buffer::new();
    buffer.insert(0, "alpha beta");
    let mut caret = CaretState::default();
    caret.set_caret_char(buffer.len_chars(), &buffer, false);
    caret.move_word_left(&buffer, false);
    assert_eq!(caret.caret_char(), 6);
    caret.move_word_left(&buffer, false);
    assert_eq!(caret.caret_char(), 0);
}

#[test]
fn undo_redo_replays_transaction() {
    let mut buffer = Buffer::new();
    buffer.insert(0, "ab");
    let mut history = EditHistory::default();
    history.push(EditTransaction {
        start_char: 2,
        deleted_text: String::new(),
        inserted_text: "c".to_string(),
        before: Default::default(),
        after: Default::default(),
    });
    buffer.insert(2, "c");

    history.undo(&mut buffer);
    assert_eq!(buffer.text_string(), "ab");
    history.redo(&mut buffer);
    assert_eq!(buffer.text_string(), "abc");
}

#[test]
fn consecutive_inserts_coalesce_into_one_undo_step() {
    let mut buffer = Buffer::new();
    let mut history = EditHistory::default();
    for ch in ["a", "b", "c"] {
        let caret = buffer.len_chars();
        history.push(EditTransaction {
            start_char: caret,
            deleted_text: String::new(),
            inserted_text: ch.to_string(),
            before: Default::default(),
            after: Default::default(),
        });
        buffer.insert(caret, ch);
    }
    assert_eq!(buffer.text_string(), "abc");

    history.undo(&mut buffer);
    assert_eq!(buffer.text_string(), "");
    history.redo(&mut buffer);
    assert_eq!(buffer.text_string(), "abc");
}

#[test]
fn non_contiguous_inserts_do_not_coalesce() {
    let mut buffer = Buffer::new();
    let mut history = EditHistory::default();
    history.push(EditTransaction {
        start_char: 0,
        deleted_text: String::new(),
        inserted_text: "a".to_string(),
        before: Default::default(),
        after: Default::default(),
    });
    buffer.insert(0, "a");
    history.push(EditTransaction {
        start_char: 0,
        deleted_text: String::new(),
        inserted_text: "b".to_string(),
        before: Default::default(),
        after: Default::default(),
    });
    buffer.insert(0, "b");

    history.undo(&mut buffer);
    assert_eq!(buffer.text_string(), "a");
    history.undo(&mut buffer);
    assert_eq!(buffer.text_string(), "");
}

#[test]
fn move_home_and_end_track_line_bounds() {
    let mut buffer = Buffer::new();
    buffer.insert(0, "  hello\nworld");
    let mut caret = CaretState::default();
    caret.set_caret_char(6, &buffer, false);
    caret.move_home(&buffer, false);
    assert_eq!(caret.caret_char(), 0);
    caret.move_end(&buffer, false);
    assert_eq!(caret.caret_char(), 7);
}

#[test]
fn move_down_up_preserve_preferred_column() {
    let mut buffer = Buffer::new();
    buffer.insert(0, "ab\ncdef\ngh");
    let mut caret = CaretState::default();
    caret.set_caret_char(1, &buffer, false);
    caret.move_down(&buffer, false);
    assert_eq!(caret.caret_char(), 4);
    caret.move_down(&buffer, false);
    assert_eq!(caret.caret_char(), 9);
    caret.move_up(&buffer, false);
    assert_eq!(caret.caret_char(), 4);
}

#[test]
fn move_left_without_select_collapses_selection() {
    let mut buffer = Buffer::new();
    buffer.insert(0, "abc");
    let mut caret = CaretState::default();
    caret.set_caret_char(3, &buffer, true);
    assert_eq!(caret.selection_range(), Some(0..3));
    caret.move_left(&buffer, false);
    assert_eq!(caret.caret_char(), 0);
    assert!(caret.selection_range().is_none());
}

#[test]
fn selection_range_is_normalized_and_length_reported() {
    let mut buffer = Buffer::new();
    buffer.insert(0, "abcde");
    let mut caret = CaretState::default();
    caret.set_caret_char(4, &buffer, true);
    assert_eq!(caret.selection_range(), Some(0..4));
    assert_eq!(caret.selection_range().unwrap().len(), 4);
    caret.clear_selection();
    assert_eq!(caret.selection_range(), None);
}

#[test]
fn line_column_reports_one_based_positions() {
    let mut buffer = Buffer::new();
    buffer.insert(0, "ab\ncdef");
    assert_eq!(line_column(&buffer, 3), (2, 1));
    assert_eq!(line_column(&buffer, 5), (2, 3));
}

#[test]
fn word_char_range_selects_word_at_middle_and_edges() {
    let mut buffer = Buffer::new();
    buffer.insert(0, "alpha beta");
    assert_eq!(word_char_range(&buffer, 2), Some(0..5));
    assert_eq!(word_char_range(&buffer, 0), Some(0..5));
    assert_eq!(word_char_range(&buffer, 4), Some(0..5));
    assert_eq!(word_char_range(&buffer, 6), Some(6..10));
}

#[test]
fn word_char_range_handles_punctuation_and_whitespace() {
    let mut buffer = Buffer::new();
    buffer.insert(0, "foo,bar baz");
    assert_eq!(word_char_range(&buffer, 3), Some(3..4));
    assert_eq!(word_char_range(&buffer, 7), None);
    let empty = Buffer::new();
    assert_eq!(word_char_range(&empty, 0), None);
}

#[test]
fn word_char_range_does_not_cross_newlines() {
    let mut buffer = Buffer::new();
    buffer.insert(0, "foo\nbar");
    assert_eq!(word_char_range(&buffer, 2), Some(0..3));
    assert_eq!(word_char_range(&buffer, 5), Some(4..7));
}

#[test]
fn word_boundaries_skip_spaces_then_a_word() {
    let buffer = Buffer::from_contents("/x", "foo  bar.baz");
    assert_eq!(next_word_boundary(&buffer, 0), 3);
    assert_eq!(next_word_boundary(&buffer, 3), 9);
    assert_eq!(previous_word_boundary(&buffer, 8), 5);
    assert_eq!(previous_word_boundary(&buffer, 5), 0);
    assert_eq!(previous_word_boundary(&buffer, 0), 0);
    assert_eq!(next_word_boundary(&buffer, 12), 12);
}

#[test]
fn undo_then_redo_restores_the_edit_and_caret() {
    let mut buffer = Buffer::from_contents("/x", "hello");
    let mut history = EditHistory::default();
    let before = CaretSnapshot { caret_char: 5, anchor_char: None };
    let after = CaretSnapshot { caret_char: 1, anchor_char: None };
    history.push(EditTransaction {
        start_char: 0,
        deleted_text: "hello".to_string(),
        inserted_text: "J".to_string(),
        before,
        after,
    });
    buffer.remove(0..5);
    buffer.insert(0, "J");
    assert_eq!(history.undo(&mut buffer), Some(before));
    assert_eq!(buffer.text_string(), "hello");
    assert_eq!(history.redo(&mut buffer), Some(after));
    assert_eq!(buffer.text_string(), "J");
    assert_eq!(history.undo_len(), 1);
    assert_eq!(history.redo_len(), 0);
}

#[test]
fn nothing_to_undo_leaves_the_buffer_alone() {
    let mut buffer = Buffer::from_contents("/x", "abc");
    let mut history = EditHistory::default();
    assert_eq!(history.undo(&mut buffer), None);
    assert_eq!(history.redo(&mut buffer), None);
    assert_eq!(buffer.text_string(), "abc");
}

#[test]
fn a_new_edit_clears_redo() {
    let mut buffer = Buffer::new();
    let mut history = EditHistory::default();
    history.push(EditTransaction {
        start_char: 0,
        deleted_text: String::new(),
        inserted_text: "a".to_string(),
        before: Default::default(),
        after: Default::default(),
    });
    buffer.insert(0, "a");
    history.undo(&mut buffer);
    assert_eq!(history.redo_len(), 1);
    history.push(EditTransaction {
        start_char: 0,
        deleted_text: String::new(),
        inserted_text: "b".to_string(),
        before: Default::default(),
        after: Default::default(),
    });
    assert_eq!(history.redo_len(), 0);
}

#[test]
fn undo_depth_is_capped() {
    let mut history = EditHistory::default();
    for i in 0..(MAX_UNDO_DEPTH + 5) {
        history.push(EditTransaction {
            start_char: 2 * i,
            deleted_text: "x".to_string(),
            inserted_text: "y".to_string(),
            before: Default::default(),
            after: Default::default(),
        });
    }
    assert_eq!(history.undo_len(), MAX_UNDO_DEPTH);
    history.clear();
    assert_eq!(history.undo_len(), 0);
}

#[test]
fn selecting_motion_extends_from_the_anchor() {
    let buffer = Buffer::from_contents("/x", "abcdef");
    let mut caret = CaretState::default();
    caret.set_caret_char(2, &buffer, false);
    caret.move_right(&buffer, true);
    caret.move_right(&buffer, true);
    assert_eq!(caret.selection_range(), Some(2..4));
    assert_eq!(caret.selection_len(), 2);
    caret.move_right(&buffer, false);
    assert_eq!(caret.caret_char(), 4);
    assert_eq!(caret.selection_range(), None);
}

#[test]
fn caret_snapshot_round_trips() {
    let buffer = Buffer::from_contents("/x", "abcdef");
    let mut caret = CaretState::default();
    caret.select_range(1, 4, &buffer);
    let snapshot = caret.snapshot();
    assert_eq!(snapshot, CaretSnapshot { caret_char: 4, anchor_char: Some(1) });
    caret.reset_to_buffer_end(&buffer);
    assert_eq!(caret.caret_char(), 6);
    caret.restore(snapshot, &buffer);
    assert_eq!(caret.selection_range(), Some(1..4));
}

#[test]
fn the_caret_stays_inside_the_buffer_across_moves() {
    let mut buffer = Buffer::new();
    buffer.insert(0, "ab\ncd");
    let mut caret = CaretState::default();
    caret.set_caret_char(99, &buffer, true);
    caret.move_down(&buffer, true);
    caret.move_right(&buffer, true);
    caret.move_end(&buffer, false);
    caret.select_range(1, 40, &buffer);
    assert!(caret.caret_char() <= 5);
    let range = caret.selection_range().unwrap();
    assert!(range.end <= 5);
    assert_eq!(range, 1..5);
}
