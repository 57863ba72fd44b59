use lux::commands::{
    action_key, by_id, command, commands, items_from_ids, recent_items, CommandEffect, CommandIcon,
    CommandId, CommandKind, PaletteContext, PaletteTarget,
};
use lux::config::{Config, RecentItem};

fn config_with(path: &str, is_dir: bool) -> Config {
    Config::new(vec![RecentItem { path: path.to_string(), is_dir }], vec![], vec![])
}

#[test]
fn registry_has_unique_ids() {
    let ids: Vec<&str> = commands().iter().map(|c| c.id.as_str()).collect();
    let mut sorted = ids.clone();
    sorted.sort();
    sorted.dedup();
    assert_eq!(ids.len(), sorted.len(), "duplicate command id: {ids:?}");
    assert!(!ids.is_empty());
}

#[test]
fn open_recently_is_a_show_recents_command() {
    let command = by_id("open-recently").unwrap();
    assert_eq!(command.kind, CommandKind::ShowRecents);
    assert_eq!(command.title, "Open Recently");
}

#[test]
fn registry_titles_and_categories() {
    let entries: Vec<(String, String)> =
        commands().iter().map(|c| (c.title.clone(), c.category.clone())).collect();
    let mut expected: Vec<(String, String)> = vec![
        ("Save File", "File"),
        ("Format File", "File"),
        ("Open File", "File"),
        ("Open Recently", "File"),
        ("Open Folder", "File"),
        ("Switch To Configuration", "View"),
        ("Toggle Sidebar", "View"),
        ("Toggle Markdown Preview", "View"),
        ("Clear Recent Items", "Workspace"),
    ]
    .into_iter()
    .map(|(t, c)| (t.to_string(), c.to_string()))
    .collect();
    expected.sort();
    let mut actual = entries.clone();
    actual.sort();
    assert_eq!(actual, expected);
    assert_eq!(entries.len(), 9);
}

#[test]
fn markdown_preview_command_needs_a_markdown_document() {
    let command = by_id("toggle-markdown-preview").unwrap();
    let markdown = PaletteContext { active_is_markdown: true };
    let other = PaletteContext { active_is_markdown: false };
    assert!(command.available(&markdown));
    assert!(!command.available(&other));
    for command in commands().iter().filter(|c| c.id.as_str() != "toggle-markdown-preview") {
        assert!(command.available(&other), "{} hides without context", command.id.as_str());
    }
}

#[test]
fn command_palette_item_carries_metadata() {
    let command = by_id("save-file").unwrap();
    let item = command.palette_item();
    assert_eq!(item.title, "Save File");
    assert_eq!(item.subtitle.as_deref(), Some("File"));
    assert!(matches!(&item.icon, CommandIcon::Phosphor(_)));
    assert!(matches!(&item.target, PaletteTarget::Registered(_)));
}

#[test]
fn commands_recent_list_builds_from_recent_items() {
    let config = config_with("/tmp/rustfmt.toml", false);
    let items = recent_items(&config);
    assert_eq!(items.len(), 1);
    assert_eq!(items[0].title, "rustfmt.toml");
    assert_eq!(items[0].subtitle.as_deref(), Some("/tmp/rustfmt.toml"));
    assert!(matches!(&items[0].icon, CommandIcon::File(_)));
}

#[test]
fn commands_recent_folders_get_folder_icon() {
    let config = config_with("/tmp/project", true);
    let items = recent_items(&config);
    assert!(matches!(&items[0].icon, CommandIcon::Folder));
}

#[test]
fn command_panel_recent_list_builds_from_recent_items() {
    let config = config_with("/tmp/rustfmt.toml", false);
    let commands = recent_items(&config);
    assert_eq!(commands.len(), 1);
    assert_eq!(commands[0].title, "rustfmt.toml");
    assert_eq!(commands[0].subtitle.as_deref(), Some("/tmp/rustfmt.toml"));
    assert!(matches!(&commands[0].icon, CommandIcon::File(_)));
}

#[test]
fn command_panel_recent_folders_get_folder_icon() {
    let config = config_with("/tmp/project", true);
    let commands = recent_items(&config);
    assert!(matches!(&commands[0].icon, CommandIcon::Folder));
}

#[test]
fn command_panel_recent_used_commands_keep_latest_first() {
    let context = PaletteContext { active_is_markdown: false };
    let commands = items_from_ids(&vec![CommandId::OpenFolder, CommandId::OpenFile], &context);
    assert_eq!(commands.len(), 2);
    assert_eq!(commands[0].title, "Open Folder");
    assert_eq!(commands[1].title, "Open File");
    assert!(matches!(&commands[0].icon, CommandIcon::Phosphor(_)));
    assert_eq!(commands[0].subtitle.as_deref(), Some("File"));
}

#[test]
fn command_panel_action_key_differs_for_recent_file_and_folder() {
    let file_key = action_key(&PaletteTarget::OpenRecent {
        path: "/tmp/project".to_string(),
        is_dir: false,
    });
    let folder_key = action_key(&PaletteTarget::OpenRecent {
        path: "/tmp/project".to_string(),
        is_dir: true,
    });
    assert_ne!(file_key, folder_key);
    assert_eq!(file_key, "open-recent-item-file-/tmp/project");
    assert_eq!(folder_key, "open-recent-item-dir-/tmp/project");
    assert_eq!(action_key(&PaletteTarget::Registered(CommandId::SaveFile)), "save-file");
}

#[test]
fn recent_rows_carry_their_search_keywords() {
    let config = config_with("/tmp/project", true);
    let items = recent_items(&config);
    assert_eq!(
        items[0].keywords,
        vec!["recent", "open", "recently", "folder", "project", "/tmp/project"]
    );
    assert!(matches!(
        &items[0].target,
        PaletteTarget::OpenRecent { path, is_dir: true } if path == "/tmp/project"
    ));
    // A path without a file name is titled by the path itself.
    let root = recent_items(&config_with("/", true));
    assert_eq!(root[0].title, "/");
    assert_eq!(root[0].keywords[4], "");
}

#[test]
fn unknown_ids_resolve_to_nothing() {
    assert!(by_id("no-such-command").is_none());
    assert!(by_id("").is_none());
}

#[test]
fn every_command_runs_its_own_effect() {
    assert_eq!(command(CommandId::SaveFile).effect, CommandEffect::SaveFile);
    assert_eq!(command(CommandId::OpenFile).effect, CommandEffect::PickFileToOpen);
    assert_eq!(command(CommandId::OpenRecently).effect, CommandEffect::Nothing);
    assert_eq!(command(CommandId::ClearRecentItems).effect, CommandEffect::ClearRecentItems);
    for c in commands() {
        assert_eq!(by_id(c.id.as_str()).unwrap().id, c.id);
    }
}

#[test]
fn recently_used_rows_skip_unlisted_commands() {
    let context = PaletteContext { active_is_markdown: false };
    let rows = items_from_ids(
        &vec![CommandId::ToggleMarkdownPreview, CommandId::SaveFile],
        &context,
    );
    assert_eq!(rows.len(), 1);
    assert_eq!(rows[0].title, "Save File");
}

#[test]
fn markdown_commands_follow_the_active_file() {
    assert!(lux::commands::palette_context(Some("/ws/README.md"), false).active_is_markdown);
    assert!(lux::commands::palette_context(Some("/ws/notes.markdown"), false).active_is_markdown);
    assert!(!lux::commands::palette_context(Some("/ws/README.md"), true).active_is_markdown);
    assert!(!lux::commands::palette_context(Some("/ws/main.rs"), false).active_is_markdown);
    assert!(!lux::commands::palette_context(Some("/ws/md"), false).active_is_markdown);
    assert!(!lux::commands::palette_context(None, false).active_is_markdown);
}
