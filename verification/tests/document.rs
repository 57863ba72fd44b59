use lux::buffer::Buffer;
use lux::config::FormatterSettings;
use lux::document::{save_output, CommandOutcome, EditorCommand, OpenDocument};
use lux::workbench::{restore_plan, CloseOutcome, Workbench, WorkspaceSession};

fn doc(path: &str, text: &str) -> OpenDocument {
    OpenDocument::from_buffer(Buffer::from_contents(path, text))
}

#[test]
fn from_buffer_puts_the_caret_at_the_end() {
    let d = doc("/ws/a.rs", "hello");
    assert_eq!(d.caret_state().caret_char(), 5);
    assert!(!d.is_dirty());
    assert_eq!(d.edit_generation(), 0);
    assert_eq!(d.document_status(), None);
}

#[test]
fn typing_marks_dirty_and_undo_restores() {
    let mut d = OpenDocument::new_empty();
    assert_eq!(d.execute_command(EditorCommand::InsertText("ab".to_string())), CommandOutcome::Changed);
    assert_eq!(d.buffer().text_string(), "ab");
    assert!(d.is_dirty());
    assert_eq!(d.edit_generation(), 1);
    assert_eq!(d.document_status().map(|s| s.as_str()), Some("Modified"));
    d.execute_command(EditorCommand::InsertText("c".to_string()));
    assert_eq!(d.execute_command(EditorCommand::Undo), CommandOutcome::Changed);
    assert_eq!(d.buffer().text_string(), "");
    assert_eq!(d.execute_command(EditorCommand::Redo), CommandOutcome::Changed);
    assert_eq!(d.buffer().text_string(), "abc");
    assert_eq!(d.execute_command(EditorCommand::Redo), CommandOutcome::Noop);
}

#[test]
fn selection_is_replaced_copied_and_cut() {
    let mut d = doc("/x", "hello world");
    d.execute_command(EditorCommand::SelectAll);
    assert_eq!(d.selected_text(), Some("hello world".to_string()));
    assert_eq!(d.execute_command(EditorCommand::Copy), CommandOutcome::Copy("hello world".to_string()));
    assert_eq!(d.execute_command(EditorCommand::Cut), CommandOutcome::Cut("hello world".to_string()));
    assert_eq!(d.buffer().text_string(), "");
    assert_eq!(d.execute_command(EditorCommand::Copy), CommandOutcome::Noop);
}

#[test]
fn newline_keeps_indentation_and_tab_inserts_spaces() {
    let mut d = doc("/x", "    fn x() {");
    d.execute_command(EditorCommand::InsertNewline);
    assert_eq!(d.buffer().text_string(), "    fn x() {\n        ");
    d.execute_command(EditorCommand::InsertTab);
    assert_eq!(d.buffer().text_string(), "    fn x() {\n            ");
    assert_eq!(OpenDocument::indentation_for_newline(&Buffer::from_contents("/x", "\tab"), 3), "\n\t");
}

#[test]
fn deletions_by_character_and_word() {
    let mut d = doc("/x", "foo bar");
    assert_eq!(d.execute_command(EditorCommand::DeleteWordBackward), CommandOutcome::Changed);
    assert_eq!(d.buffer().text_string(), "foo ");
    assert_eq!(d.execute_command(EditorCommand::Backspace), CommandOutcome::Changed);
    assert_eq!(d.buffer().text_string(), "foo");
    assert_eq!(d.execute_command(EditorCommand::Delete), CommandOutcome::Noop);
    d.execute_command(EditorCommand::MoveHome { selecting: false });
    assert_eq!(d.execute_command(EditorCommand::DeleteWordForward), CommandOutcome::Changed);
    assert_eq!(d.buffer().text_string(), "");
    assert_eq!(d.execute_command(EditorCommand::Backspace), CommandOutcome::Noop);
}

#[test]
fn save_and_palette_commands_are_handed_back() {
    let mut d = doc("/x", "a");
    assert_eq!(d.execute_command(EditorCommand::Save), CommandOutcome::Save);
    assert_eq!(d.execute_command(EditorCommand::ToggleCommandPanel), CommandOutcome::Noop);
}

#[test]
fn titles_name_the_file() {
    let mut d = doc("/ws/src/main.rs", "x");
    assert_eq!(d.title(), "main.rs");
    assert_eq!(d.window_title(), "lux - /ws/src/main.rs");
    d.execute_command(EditorCommand::InsertText("y".to_string()));
    assert_eq!(d.window_title(), "lux - * /ws/src/main.rs");
    let mut empty = OpenDocument::new_empty();
    assert_eq!(empty.title(), "Untitled");
    assert_eq!(empty.window_title(), "lux");
    empty.execute_command(EditorCommand::InsertText("y".to_string()));
    assert_eq!(empty.window_title(), "lux - * Untitled");
}

#[test]
fn a_save_clears_dirty_only_for_the_text_it_wrote() {
    let mut d = doc("/ws/a.rs", "x");
    d.execute_command(EditorCommand::InsertText("y".to_string()));
    let generation = d.edit_generation();
    d.execute_command(EditorCommand::InsertText("z".to_string()));
    d.on_saved("/ws/a.rs", generation, true);
    assert!(d.is_dirty());
    assert_eq!(d.document_status().map(|s| s.as_str()), Some("Saved /ws/a.rs"));
    d.on_saved("/ws/a.rs", d.edit_generation(), true);
    assert!(!d.is_dirty());
    d.execute_command(EditorCommand::InsertText("!".to_string()));
    d.on_saved("/ws/a.rs", d.edit_generation(), false);
    assert!(d.is_dirty());
    assert_eq!(d.document_status().map(|s| s.as_str()), Some("Failed to save file"));
}

#[test]
fn formatter_results_apply_only_to_the_text_they_saw() {
    let mut d = doc("/ws/a.rs", "fn  x(){}");
    let generation = d.edit_generation();
    assert!(!d.apply_format_result(generation, false, Ok("fn  x(){}".to_string())));
    assert_eq!(d.document_status().map(|s| s.as_str()), Some("Already formatted"));
    assert!(!d.apply_format_result(generation + 1, false, Ok("other".to_string())));
    assert_eq!(d.buffer().text_string(), "fn  x(){}");
    assert!(!d.apply_format_result(generation, false, Err("boom".to_string())));
    assert_eq!(d.document_status().map(|s| s.as_str()), Some("Format failed: boom"));
    assert!(d.apply_format_result(generation, false, Ok("fn x() {}".to_string())));
    assert_eq!(d.buffer().text_string(), "fn x() {}");
    assert_eq!(d.caret_state().caret_char(), 9);
    assert!(d.is_dirty());
    assert_eq!(d.document_status().map(|s| s.as_str()), Some("Formatted"));
    assert_eq!(d.execute_command(EditorCommand::Undo), CommandOutcome::Changed);
    assert_eq!(d.buffer().text_string(), "fn  x(){}");
}

#[test]
fn formatting_on_save_leaves_the_document_clean() {
    let mut d = doc("/ws/a.rs", "a  b");
    d.execute_command(EditorCommand::InsertText("!".to_string()));
    let generation = d.edit_generation();
    assert!(d.apply_format_result(generation, true, Ok("a b!".to_string())));
    assert!(!d.is_dirty());
    assert_eq!(d.caret_state().caret_char(), 4);
}

#[test]
fn formatting_needs_a_configured_formatter() {
    let mut d = doc("/ws/a.rs", "x");
    let mut formatter = FormatterSettings::default();
    assert!(!d.begin_formatting(&formatter));
    assert_eq!(d.document_status().map(|s| s.as_str()), Some("No formatter configured"));
    formatter.command = "rustfmt".to_string();
    assert!(d.begin_formatting(&formatter));
    assert_eq!(d.document_status().map(|s| s.as_str()), Some("Formatting…"));
}

#[test]
fn pointer_positions_clamp_to_the_line() {
    let mut d = doc("/x", "ab\ncdef");
    assert_eq!(d.pointer_to_char(1, 2), Some(5));
    assert_eq!(d.pointer_to_char(0, 10), Some(2));
    assert_eq!(d.pointer_to_char(9, 1), Some(4));
    d.set_caret_from_pointer(1, 1, false);
    assert_eq!(d.caret_state().caret_char(), 4);
    d.select_word_from_pointer(1, 2);
    assert_eq!(d.caret_state().selection_range(), Some(3..7));
}

#[test]
fn a_workbench_always_has_an_active_document() {
    let mut wb = Workbench::new();
    assert_eq!(wb.documents().len(), 1);
    assert!(wb.should_reuse_active_document_slot());
    wb.open_buffer(Buffer::from_contents("/ws/a.rs", "a"));
    assert_eq!(wb.documents().len(), 1);
    assert_eq!(wb.active_document().title(), "a.rs");
    wb.open_buffer(Buffer::from_contents("/ws/b.rs", "b"));
    assert_eq!(wb.documents().len(), 2);
    assert_eq!(wb.active(), 1);
    assert_eq!(wb.position_of_path("/ws//a.rs"), Some(0));
    assert_eq!(wb.position_of_path("/ws/c.rs"), None);
    assert!(wb.switch_to_document(0));
    assert!(!wb.switch_to_document(5));
    assert_eq!(wb.active(), 0);
    assert_eq!(wb.window_title(), "lux - /ws/a.rs");
}

#[test]
fn closing_keeps_dirty_documents_and_adjusts_the_active_one() {
    let mut wb = Workbench::new();
    wb.open_buffer(Buffer::from_contents("/a", "a"));
    wb.open_buffer(Buffer::from_contents("/b", "b"));
    wb.open_buffer(Buffer::from_contents("/c", "c"));
    assert_eq!(wb.active(), 2);
    wb.active_document_mut().execute_command(EditorCommand::InsertText("!".to_string()));
    assert_eq!(wb.close_document(2), CloseOutcome::Refused);
    assert_eq!(wb.documents().len(), 3);
    assert_eq!(
        wb.documents()[2].document_status().map(|s| s.as_str()),
        Some("Unsaved changes — save before closing")
    );
    assert_eq!(wb.close_document(0), CloseOutcome::Removed);
    assert_eq!(wb.active(), 1);
    assert_eq!(wb.active_document().title(), "c");
    assert_eq!(wb.close_document(7), CloseOutcome::Ignored);
    assert_eq!(wb.close_document(0), CloseOutcome::Removed);
    assert_eq!(wb.active(), 0);
    let generation = wb.active_document().edit_generation();
    wb.active_document_mut().on_saved("/c", generation, true);
    assert_eq!(wb.close_document(0), CloseOutcome::Reset);
    assert_eq!(wb.documents().len(), 1);
    assert_eq!(wb.active_document().title(), "Untitled");
}

#[test]
fn discarding_drops_unsaved_edits() {
    let mut wb = Workbench::new();
    wb.open_buffer(Buffer::from_contents("/a", "a"));
    wb.open_buffer(Buffer::from_contents("/b", "b"));
    wb.active_document_mut().execute_command(EditorCommand::InsertText("!".to_string()));
    assert_eq!(wb.discard_document(1), CloseOutcome::Removed);
    assert_eq!(wb.documents().len(), 1);
    assert_eq!(wb.active(), 0);
    assert_eq!(wb.discard_document(3), CloseOutcome::Ignored);
    wb.active_document_mut().execute_command(EditorCommand::InsertText("?".to_string()));
    assert_eq!(wb.discard_document(0), CloseOutcome::Reset);
    assert!(!wb.active_document().is_dirty());
}

#[test]
fn save_results_land_on_the_document_that_was_saved() {
    let mut wb = Workbench::new();
    wb.open_buffer(Buffer::from_contents("/a", "a"));
    wb.open_buffer(Buffer::from_contents("/b", "b"));
    assert!(wb.switch_to_document(0));
    wb.active_document_mut().execute_command(EditorCommand::InsertText("!".to_string()));
    let generation = wb.active_document().edit_generation();
    assert!(wb.switch_to_document(1));
    assert_eq!(wb.on_file_saved("/a", generation, true), Some(0));
    assert!(!wb.documents()[0].is_dirty());
    assert_eq!(wb.documents()[0].document_status().map(|s| s.as_str()), Some("Saved /a"));
    assert_eq!(wb.documents()[1].document_status(), None);
    assert_eq!(wb.on_file_saved("/zzz", 0, true), None);
}

#[test]
fn formatter_results_land_on_their_document() {
    let mut wb = Workbench::new();
    wb.open_buffer(Buffer::from_contents("/a", "x  y"));
    wb.open_buffer(Buffer::from_contents("/b", "b"));
    assert!(wb.on_formatting_finished(Some("/a"), 0, false, Ok("x y".to_string())));
    assert_eq!(wb.documents()[0].buffer().text_string(), "x y");
    assert_eq!(wb.documents()[1].buffer().text_string(), "b");
    assert!(!wb.on_formatting_finished(Some("/gone"), 0, false, Ok("z".to_string())));
    assert!(wb.on_formatting_finished(None, 0, false, Ok("c".to_string())));
    assert_eq!(wb.active_document().buffer().text_string(), "c");
}

#[test]
fn a_session_remembers_the_workspace_tabs_in_order() {
    let mut wb = Workbench::new();
    wb.open_buffer(Buffer::from_contents("/ws/b.rs", "b"));
    wb.open_buffer(Buffer::from_contents("/elsewhere/x.rs", "x"));
    wb.open_buffer(Buffer::from_contents("/ws/src/a.rs", "a"));
    let expanded = vec!["/ws/src".to_string(), "/other".to_string(), "/ws".to_string()];
    let session = wb.session("/ws", None, &expanded, false);
    assert_eq!(session.workspace_path, "/ws");
    assert_eq!(session.open_files, vec!["/ws/b.rs", "/ws/src/a.rs"]);
    assert_eq!(session.active_file.as_deref(), Some("/ws/src/a.rs"));
    assert_eq!(session.expanded_dirs, vec!["/ws/src", "/ws"]);
    assert!(!session.configuration_open);

    // Restoring into a fresh editor opens the same tabs in the same order.
    let mut restored = Workbench::new();
    for path in restored.unopened_paths(&session.open_files) {
        restored.open_buffer(Buffer::from_contents(&path, ""));
    }
    let focus = restored.position_of_path(session.active_file.as_deref().unwrap()).unwrap();
    assert!(restored.switch_to_document(focus));
    let again = restored.session("/ws", None, &session.expanded_dirs, false);
    assert_eq!(again.open_files, session.open_files);
    assert_eq!(again.active_file, session.active_file);
    assert_eq!(again.expanded_dirs, session.expanded_dirs);
}

#[test]
fn a_focused_tab_from_elsewhere_keeps_the_remembered_file() {
    let mut wb = Workbench::new();
    wb.open_buffer(Buffer::from_contents("/ws/a.rs", "a"));
    wb.open_buffer(Buffer::from_contents("/elsewhere/x.rs", "x"));
    let kept = wb.session("/ws", Some("/ws/a.rs"), &vec![], true);
    assert_eq!(kept.active_file.as_deref(), Some("/ws/a.rs"));
    assert!(kept.configuration_open);
    let gone = wb.session("/ws", Some("/ws/closed.rs"), &vec![], false);
    assert_eq!(gone.active_file, None);
    assert_eq!(wb.unopened_paths(&vec!["/ws/a.rs".to_string(), "/ws/new.rs".to_string()]), vec!["/ws/new.rs"]);
}

#[test]
fn a_rename_in_the_tree_moves_the_open_tab_with_it() {
    let mut wb = Workbench::new();
    wb.open_buffer(Buffer::from_contents("/ws/old.rs", "fn main() {}"));
    wb.open_buffer(Buffer::from_contents("/ws/other.rs", "x"));
    assert!(wb.on_path_renamed("/ws/old.rs", "/ws/new.rs"));
    let docs = wb.documents();
    assert_eq!(docs[0].buffer().path().map(|p| p.as_str()), Some("/ws/new.rs"));
    assert_eq!(docs[0].buffer().text_string(), "fn main() {}");
    assert_eq!(docs[1].buffer().path().map(|p| p.as_str()), Some("/ws/other.rs"));
    assert_eq!(wb.active(), 1);
    assert_eq!(wb.position_of_path("/ws/old.rs"), None);
    assert_eq!(wb.position_of_path("/ws/new.rs"), Some(0));
    // Nothing open there: nothing moves.
    assert!(!wb.on_path_renamed("/ws/missing.rs", "/ws/gone.rs"));
}

fn session(workspace: &str, files: &[&str], active: Option<&str>, expanded: &[&str]) -> WorkspaceSession {
    WorkspaceSession {
        workspace_path: workspace.to_string(),
        open_files: files.iter().map(|f| f.to_string()).collect(),
        active_file: active.map(|a| a.to_string()),
        configuration_open: false,
        expanded_dirs: expanded.iter().map(|d| d.to_string()).collect(),
    }
}

#[test]
fn a_first_visit_expands_only_the_top_level() {
    let plan = restore_plan(None, "/ws");
    assert_eq!(plan.expanded, vec!["/ws"]);
    assert!(plan.open_files.is_empty());
    assert_eq!(plan.active_file, None);
    assert!(!plan.configuration_open);
}

#[test]
fn a_remembered_session_comes_back_as_it_was() {
    let mut s = session("/ws", &["/ws/b.rs", "/ws/a.rs"], Some("/ws/a.rs"), &["/ws", "/ws/src"]);
    s.configuration_open = true;
    let plan = restore_plan(Some(&s), "/ws");
    assert_eq!(plan.open_files, vec!["/ws/b.rs", "/ws/a.rs"]);
    assert_eq!(plan.active_file.as_deref(), Some("/ws/a.rs"));
    assert_eq!(plan.expanded, vec!["/ws", "/ws/src"]);
    assert!(plan.configuration_open);
}

#[test]
fn loaded_files_replace_the_startup_document_and_focus_the_remembered_one() {
    let mut wb = Workbench::new();
    let mut pending = Some("/ws".to_string());
    let open_configuration = wb.on_files_loaded(
        Some("/ws"),
        Some("/ws/"),
        vec![Buffer::from_contents("/ws/b.rs", "b"), Buffer::from_contents("/ws/a.rs", "a")],
        Some("/ws/a.rs"),
        &mut pending,
    );
    assert!(open_configuration);
    assert_eq!(pending, None);
    assert_eq!(wb.documents().len(), 2);
    assert_eq!(wb.documents()[0].buffer().path().map(|p| p.as_str()), Some("/ws/b.rs"));
    assert_eq!(wb.active(), 1);
    assert_eq!(wb.active_document().buffer().text_string(), "a");
    assert_eq!(wb.active_document().caret_state().caret_char(), 1);
}

#[test]
fn loaded_files_join_the_open_tabs_and_keep_the_focus_without_a_target() {
    let mut wb = Workbench::new();
    wb.open_buffer(Buffer::from_contents("/ws/x.rs", "x"));
    wb.open_buffer(Buffer::from_contents("/ws/y.rs", "y"));
    wb.switch_to_document(0);
    let mut pending = Some("/elsewhere".to_string());
    let open_configuration = wb.on_files_loaded(
        Some("/ws"),
        Some("/ws"),
        vec![Buffer::from_contents("/ws/z.rs", "z")],
        None,
        &mut pending,
    );
    assert!(!open_configuration);
    assert_eq!(pending, None);
    assert_eq!(wb.documents().len(), 3);
    assert_eq!(wb.documents()[2].buffer().path().map(|p| p.as_str()), Some("/ws/z.rs"));
    assert_eq!(wb.active(), 0);
}

#[test]
fn a_batch_from_a_workspace_left_behind_is_dropped() {
    let mut wb = Workbench::new();
    let mut pending = Some("/new".to_string());
    let open_configuration = wb.on_files_loaded(
        Some("/old"),
        Some("/new"),
        vec![Buffer::from_contents("/old/a.rs", "a")],
        Some("/old/a.rs"),
        &mut pending,
    );
    assert!(!open_configuration);
    assert_eq!(pending.as_deref(), Some("/new"));
    assert_eq!(wb.documents().len(), 1);
    assert_eq!(wb.active_document().buffer().path(), None);
    // An empty batch changes nothing either.
    assert!(!wb.on_files_loaded(Some("/new"), Some("/new"), vec![], None, &mut pending));
    assert_eq!(pending.as_deref(), Some("/new"));
}

#[test]
fn a_save_without_a_path_is_cancelled() {
    let mut d = OpenDocument::new_empty();
    assert_eq!(d.begin_save(), None);
    assert_eq!(d.document_status().map(|s| s.as_str()), Some("Save cancelled"));
    let mut named = doc("/ws/a.rs", "a");
    assert_eq!(named.begin_save().as_deref(), Some("/ws/a.rs"));
    assert_eq!(named.document_status(), None);
}

#[test]
fn a_save_writes_what_the_formatter_changed() {
    let (written, report) = save_output("a  b".to_string(), Some(Ok("a b".to_string())));
    assert_eq!(written, "a b");
    assert_eq!(report, Some(Ok("a b".to_string())));
    let (written, report) = save_output("a b".to_string(), Some(Ok("a b".to_string())));
    assert_eq!(written, "a b");
    assert_eq!(report, None);
    let (written, report) = save_output("a".to_string(), Some(Err("bad".to_string())));
    assert_eq!(written, "a");
    assert_eq!(report, Some(Err("bad".to_string())));
    let (written, report) = save_output("a".to_string(), None);
    assert_eq!(written, "a");
    assert_eq!(report, None);
}

#[test]
fn a_format_result_lands_on_its_document_only() {
    let mut wb = Workbench::new();
    wb.open_buffer(Buffer::from_contents("/ws/a.rs", "a  b"));
    wb.open_buffer(Buffer::from_contents("/ws/c.rs", "c"));
    // Stale: an edit came since the formatter started.
    assert!(!wb.on_formatting_finished(Some("/ws/a.rs"), 7, true, Ok("a b".to_string())));
    assert_eq!(wb.documents()[0].buffer().text_string(), "a  b");
    assert!(wb.on_formatting_finished(Some("/ws/a.rs"), 0, true, Ok("a b".to_string())));
    let formatted = &wb.documents()[0];
    assert_eq!(formatted.buffer().text_string(), "a b");
    assert!(!formatted.is_dirty());
    assert_eq!(formatted.edit_generation(), 1);
    assert_eq!(formatted.document_status().map(|s| s.as_str()), Some("Formatted"));
    assert_eq!(formatted.caret_state().caret_char(), 3);
    assert_eq!(wb.documents()[1].buffer().text_string(), "c");
    assert_eq!(wb.documents()[1].document_status(), None);
    assert_eq!(wb.active(), 1);
}

#[test]
fn reopening_a_workspace_restores_its_tabs_focus_and_folders() {
    let mut wb = Workbench::new();
    wb.open_buffer(Buffer::from_contents("/ws/b.rs", "b"));
    wb.open_buffer(Buffer::from_contents("/ws/a.rs", "a"));
    wb.open_buffer(Buffer::from_contents("/ws/c.rs", "c"));
    assert!(wb.switch_to_document(1));
    let expanded = vec!["/ws".to_string(), "/ws/src".to_string()];
    let mut store = lux::config::Config::default();
    store.set_workspace_session(wb.session("/ws", None, &expanded, false));

    // Next visit: a fresh editor reads the remembered files back.
    let plan = restore_plan(store.workspace_session("/ws"), "/ws");
    assert_eq!(plan.expanded, expanded);
    let mut reopened = Workbench::new();
    let buffers = reopened
        .unopened_paths(&plan.open_files)
        .iter()
        .map(|p| Buffer::from_contents(p, ""))
        .collect();
    let mut pending = None;
    reopened.on_files_loaded(Some("/ws"), Some("/ws"), buffers, plan.active_file.as_deref(), &mut pending);
    let titles: Vec<String> = reopened.documents().iter().map(|d| d.title()).collect();
    assert_eq!(titles, vec!["b.rs", "a.rs", "c.rs"]);
    assert_eq!(reopened.active(), 1);
}

#[test]
fn a_missing_or_binary_document_is_not_saved() {
    let mut gone = doc("/ws/gone.rs", "x");
    gone.set_missing(true);
    assert_eq!(gone.begin_save(), None);
    assert_eq!(gone.document_status().map(|s| s.as_str()), Some("File not found — nothing to save"));
    let mut blob = doc("/ws/image.bin", "");
    blob.set_binary(true);
    assert_eq!(blob.begin_save(), None);
    assert_eq!(blob.document_status().map(|s| s.as_str()), Some("Binary file — not editable"));
    // Missing wins over binary, as the original checks it first.
    blob.set_missing(true);
    assert_eq!(blob.begin_save(), None);
    assert_eq!(blob.document_status().map(|s| s.as_str()), Some("File not found — nothing to save"));
}

#[test]
fn a_missing_or_binary_document_has_nothing_to_format() {
    let formatter = FormatterSettings { command: "rustfmt".to_string(), args: String::new(), format_on_save: false };
    let mut blob = doc("/ws/image.bin", "");
    blob.set_binary(true);
    assert!(!blob.begin_formatting(&formatter));
    assert_eq!(blob.document_status().map(|s| s.as_str()), Some("Nothing to format here"));
    let mut text = doc("/ws/a.rs", "a");
    assert!(text.begin_formatting(&formatter));
    assert_eq!(text.document_status().map(|s| s.as_str()), Some("Formatting…"));
}

#[test]
fn a_rename_brings_a_missing_document_back() {
    let mut wb = Workbench::new();
    wb.open_buffer(Buffer::from_contents("/ws/old.rs", "x"));
    wb.active_document_mut().set_missing(true);
    assert!(wb.on_path_renamed("/ws/old.rs", "/ws/new.rs"));
    assert!(!wb.active_document().is_missing());
}
