use lux::chrome::{
    cursor_label, on_title_bar_menu, text_edit_shortcut, AboutWindow, CloseChoice, ClosePrompt,
    CloseRequest, MenuAction, Shell, ShellFrame, ShellView, StatusBarData, TextEditShortcut,
    TitleBarMenu,
};
use lux::document::EditorCommand;
use lux::keys::{
    commands_from_event, content_owns_keyboard, editor_focused, route_command,
    should_ignore_editor_command, CommandRoute, InputEvent, Key, Modifiers,
};

fn mods(command: bool, alt: bool, shift: bool) -> Modifiers {
    Modifiers { alt, ctrl: false, shift, command }
}

fn press(key: Key, modifiers: Modifiers) -> InputEvent {
    InputEvent::Key { key, pressed: true, modifiers }
}

#[test]
fn edit_commands_map_to_the_events_a_text_edit_handles() {
    assert_eq!(
        text_edit_shortcut(&EditorCommand::SelectAll),
        Some(TextEditShortcut::CommandKey { key: 'A', shift: false })
    );
    assert_eq!(
        text_edit_shortcut(&EditorCommand::Undo),
        Some(TextEditShortcut::CommandKey { key: 'Z', shift: false })
    );
    assert_eq!(
        text_edit_shortcut(&EditorCommand::Redo),
        Some(TextEditShortcut::CommandKey { key: 'Z', shift: true })
    );
    assert_eq!(text_edit_shortcut(&EditorCommand::Cut), Some(TextEditShortcut::Cut));
    assert_eq!(text_edit_shortcut(&EditorCommand::Copy), Some(TextEditShortcut::Copy));
    assert_eq!(
        text_edit_shortcut(&EditorCommand::Paste("x".to_string())),
        Some(TextEditShortcut::Paste("x".to_string()))
    );
    assert_eq!(text_edit_shortcut(&EditorCommand::Save), None);
}

#[test]
fn menu_items_map_to_actions() {
    assert_eq!(on_title_bar_menu(TitleBarMenu::OpenFile), MenuAction::PickFileToOpen);
    assert_eq!(on_title_bar_menu(TitleBarMenu::Undo), MenuAction::Edit(EditorCommand::Undo));
    assert_eq!(on_title_bar_menu(TitleBarMenu::Paste), MenuAction::PasteClipboard);
    assert_eq!(on_title_bar_menu(TitleBarMenu::CommandPalette), MenuAction::ToggleCommandPanel);
    assert_eq!(on_title_bar_menu(TitleBarMenu::CloseTab), MenuAction::CloseActiveTab);
    assert_eq!(on_title_bar_menu(TitleBarMenu::About), MenuAction::ShowAbout);
    assert_ne!(ShellView::Editor, ShellView::Configuration);
}

#[test]
fn about_window_opens_and_closes() {
    let mut about = AboutWindow::default();
    assert!(!about.visible());
    about.open();
    assert!(about.visible());
    about.close();
    assert!(!about.visible());
}

#[test]
fn close_prompt_answers() {
    let mut prompt = ClosePrompt::default();
    assert!(!prompt.is_open());
    assert_eq!(prompt.resolve(true, Some(CloseChoice::Save), false, false), None);
    prompt.request(7);
    assert!(prompt.is_open_for(7));
    assert!(!prompt.is_open_for(8));
    assert_eq!(prompt.resolve(true, None, false, false), None);
    assert!(prompt.is_open());
    assert_eq!(prompt.resolve(true, None, false, true), Some(CloseRequest::SaveAndClose(7)));
    assert!(!prompt.is_open());
    prompt.request(3);
    assert_eq!(prompt.resolve(true, Some(CloseChoice::Discard), true, true), Some(CloseRequest::Discard(3)));
    prompt.request(3);
    assert_eq!(prompt.resolve(true, None, true, true), None);
    assert!(!prompt.is_open());
    prompt.request(4);
    assert_eq!(prompt.resolve(false, Some(CloseChoice::Save), false, false), None);
    assert!(!prompt.is_open());
    prompt.request(5);
    prompt.cancel();
    assert!(!prompt.is_open());
}

#[test]
fn status_bar_reports_the_active_caret() {
    let mut shell = Shell::default();
    let frame = ShellFrame {
        carets: vec![(2, 3), (4, 1)],
        selection_ranges: vec![(0, 4), (10, 12)],
        active_caret_index: 1,
        active_is_configuration: false,
        active_is_markdown: true,
        showing_image: false,
        document_missing: false,
        document_binary: false,
        document_file_size: Some(42),
    };
    let data = shell.status_bar(&frame);
    assert_eq!(
        data,
        StatusBarData {
            sidebar_active: true,
            cursor: Some((4, 1, 6)),
            markdown_preview: Some(false),
            file_size: Some(42),
        }
    );
    assert!(!shell.shows_markdown_preview(&frame));
    shell.toggle_markdown_preview();
    assert!(shell.shows_markdown_preview(&frame));
    shell.toggle_sidebar();
    assert!(!shell.sidebar_visible());
    assert!(!shell.shows_file_tree(true));
    let settings = ShellFrame { active_is_configuration: true, active_caret_index: 9, ..frame.clone() };
    assert_eq!(shell.status_bar(&settings).cursor, None);
    let no_caret = ShellFrame { active_caret_index: 9, ..frame };
    assert_eq!(shell.status_bar(&no_caret).cursor, Some((1, 1, 6)));
}

#[test]
fn cursor_label_reads_line_column_and_selection() {
    assert_eq!(cursor_label(12, 3, 0), "Ln 12, Col 3  Sel 0");
}

#[test]
fn keys_map_to_editing_commands() {
    assert_eq!(commands_from_event(InputEvent::Text("a".to_string())), vec![EditorCommand::InsertText("a".to_string())]);
    assert_eq!(commands_from_event(InputEvent::Text("\u{7f}".to_string())), vec![]);
    assert_eq!(commands_from_event(InputEvent::Text("\tx".to_string())), vec![]);
    assert_eq!(commands_from_event(InputEvent::Paste("p".to_string())), vec![EditorCommand::Paste("p".to_string())]);
    assert_eq!(commands_from_event(InputEvent::Copy), vec![EditorCommand::Copy]);
    assert_eq!(commands_from_event(press(Key::S, mods(true, false, false))), vec![EditorCommand::Save]);
    assert_eq!(commands_from_event(press(Key::Z, mods(true, false, true))), vec![EditorCommand::Redo]);
    assert_eq!(commands_from_event(press(Key::Z, mods(true, false, false))), vec![EditorCommand::Undo]);
    assert_eq!(commands_from_event(press(Key::K, mods(true, false, false))), vec![EditorCommand::ToggleCommandPanel]);
    assert_eq!(commands_from_event(press(Key::Enter, mods(true, false, false))), vec![]);
    assert_eq!(
        commands_from_event(press(Key::ArrowLeft, mods(false, true, true))),
        vec![EditorCommand::MoveWordLeft { selecting: true }]
    );
    assert_eq!(commands_from_event(press(Key::A, mods(true, true, false))), vec![]);
    assert_eq!(
        commands_from_event(press(Key::Home, mods(false, false, true))),
        vec![EditorCommand::MoveHome { selecting: true }]
    );
    assert_eq!(commands_from_event(press(Key::Backspace, mods(false, false, false))), vec![EditorCommand::Backspace]);
    assert_eq!(
        commands_from_event(InputEvent::Key { key: Key::Enter, pressed: false, modifiers: mods(false, false, false) }),
        vec![]
    );
    let ctrl = Modifiers { alt: false, ctrl: true, shift: false, command: false };
    assert_eq!(commands_from_event(press(Key::Y, ctrl)), vec![EditorCommand::Redo]);
    assert_eq!(commands_from_event(InputEvent::Other), vec![]);
}

fn focus() -> lux::keys::FocusState {
    lux::keys::FocusState {
        window_focused: true,
        palette_open: false,
        prompt_open: false,
        configuration_active: false,
        text_field_focused: false,
        has_text_document: true,
        document_missing: false,
        document_binary: false,
        edit_area_focused: true,
    }
}

#[test]
fn commands_reach_the_document_only_when_it_has_the_keyboard() {
    let type_a = EditorCommand::InsertText("a".to_string());
    assert_eq!(route_command(&type_a, &focus()), CommandRoute::ToDocument);
    assert!(editor_focused(&focus()));
    assert!(content_owns_keyboard(&focus()));
    let palette = lux::keys::FocusState { palette_open: true, ..focus() };
    assert_eq!(route_command(&type_a, &palette), CommandRoute::Ignore);
    assert_eq!(route_command(&EditorCommand::ToggleCommandPanel, &palette), CommandRoute::TogglePalette);
    assert!(!content_owns_keyboard(&palette));
    let prompt = lux::keys::FocusState { prompt_open: true, ..focus() };
    assert_eq!(route_command(&EditorCommand::ToggleCommandPanel, &prompt), CommandRoute::Ignore);
    assert!(should_ignore_editor_command(&EditorCommand::Undo, &prompt));
    let binary = lux::keys::FocusState { document_binary: true, ..focus() };
    assert!(should_ignore_editor_command(&EditorCommand::Undo, &binary));
    assert!(!editor_focused(&binary));
    assert!(content_owns_keyboard(&binary));
    let settings = lux::keys::FocusState { configuration_active: true, ..focus() };
    assert!(!editor_focused(&settings));
    assert!(!should_ignore_editor_command(&EditorCommand::ToggleCommandPanel, &settings));
    assert!(lux::keys::is_editor_event(&InputEvent::Cut));
    assert!(!lux::keys::is_editor_event(&InputEvent::Other));
}

#[test]
fn cursor_label_writes_large_numbers_in_full() {
    assert_eq!(cursor_label(1_234_567, 90, 10), "Ln 1234567, Col 90  Sel 10");
    assert_eq!(cursor_label(usize::MAX, 0, 9), format!("Ln {}, Col 0  Sel 9", usize::MAX));
}
