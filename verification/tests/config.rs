use lux::config::{
    default_theme_choice, insert_recent, insert_workspace_state, BehaviorSettings, Config,
    FormatterSettings, RecentItem, ThemeSettings, WorkspaceFileState, MAX_RECENT_ITEMS,
};

fn recent(path: &str, is_dir: bool) -> RecentItem {
    RecentItem { path: path.to_string(), is_dir }
}

fn state(workspace: &str, file: &str) -> WorkspaceFileState {
    WorkspaceFileState { workspace_path: workspace.to_string(), file_path: file.to_string() }
}

#[test]
fn insert_recent_dedups_and_caps() {
    let mut items = vec![recent("/a", false)];
    insert_recent(&mut items, recent("/a", false), 10);
    assert_eq!(items.len(), 1);

    for i in 0..15 {
        insert_recent(&mut items, recent(&format!("/f{i}"), false), 10);
    }
    assert_eq!(items.len(), 10);
    assert_eq!(items[0].path, "/f14");
}

#[test]
fn insert_workspace_state_dedups_and_caps() {
    let mut states = Vec::new();
    for i in 0..60 {
        insert_workspace_state(&mut states, state(&format!("/ws{i}"), "/f"), 50);
    }
    assert_eq!(states.len(), 50);
    assert_eq!(states[0].workspace_path, "/ws59");
}

#[test]
fn prune_workspace_states_keeps_only_recent_dirs() {
    let mut config = Config::new(
        vec![recent("/ws1", true)],
        vec![state("/ws1", "/ws1/f"), state("/gone", "/gone/f")],
        vec![],
    );
    config.prune_workspace_file_states_to_recent_dirs();
    assert_eq!(config.workspace_file_states().len(), 1);
    assert_eq!(config.workspace_file_states()[0].workspace_path, "/ws1");
}

#[test]
fn theme_settings_default_choice_is_auto() {
    assert_eq!(ThemeSettings::default().choice, "auto");
}

#[test]
fn workspace_last_file_finds_matching_entry() {
    let config = Config::new(vec![], vec![state("/ws", "/ws/a.rs")], vec![]);
    assert_eq!(config.workspace_last_file("/ws"), Some("/ws/a.rs".to_string()));
    assert_eq!(config.workspace_last_file("/other"), None);
}

#[test]
fn reopening_moves_an_item_to_the_front() {
    let mut items = vec![recent("/a", false), recent("/b", true), recent("/c", false)];
    insert_recent(&mut items, recent("/b", true), 10);
    let paths: Vec<&str> = items.iter().map(|i| i.path.as_str()).collect();
    assert_eq!(paths, vec!["/b", "/a", "/c"]);
}

#[test]
fn recent_paths_compare_by_component() {
    let mut items = vec![recent("/a/b", false)];
    insert_recent(&mut items, recent("/a//b/", false), 10);
    assert_eq!(items.len(), 1);
    assert_eq!(items[0].path, "/a//b/");
    insert_recent(&mut items, recent("/a/./b", false), 10);
    assert_eq!(items.len(), 1);
}

#[test]
fn zero_cap_keeps_nothing() {
    let mut items = vec![recent("/a", false)];
    insert_recent(&mut items, recent("/b", false), 0);
    assert!(items.is_empty());
}

#[test]
fn last_file_reads_back_for_a_recent_folder() {
    let mut config = Config::default();
    config.add_recent("/ws".to_string(), true);
    config.set_workspace_last_file("/ws", "/ws/main.rs");
    assert_eq!(config.workspace_last_file("/ws"), Some("/ws/main.rs".to_string()));
    config.set_workspace_last_file("/ws", "/ws/lib.rs");
    assert_eq!(config.workspace_last_file("/ws"), Some("/ws/lib.rs".to_string()));
    assert_eq!(config.workspace_file_states().len(), 1);
}

#[test]
fn last_file_is_forgotten_for_a_folder_that_is_not_recent() {
    let mut config = Config::default();
    config.set_workspace_last_file("/ws", "/ws/main.rs");
    assert_eq!(config.workspace_last_file("/ws"), None);
}

#[test]
fn folders_pushed_off_the_recent_list_forget_their_last_file() {
    let mut config = Config::default();
    config.add_recent("/ws".to_string(), true);
    config.set_workspace_last_file("/ws", "/ws/main.rs");
    for i in 0..MAX_RECENT_ITEMS {
        config.add_recent(format!("/file{i}"), false);
    }
    assert_eq!(config.recent_items().len(), MAX_RECENT_ITEMS);
    assert_eq!(config.workspace_last_file("/ws"), None);
}

#[test]
fn a_file_reopened_as_a_folder_replaces_its_entry() {
    let mut config = Config::default();
    config.add_recent("/x".to_string(), false);
    config.add_recent("/x".to_string(), true);
    assert_eq!(config.recent_items().len(), 1);
    assert!(config.recent_items()[0].is_dir);
}

#[test]
fn clearing_forgets_everything() {
    let mut config = Config::default();
    config.add_recent("/ws".to_string(), true);
    config.set_workspace_last_file("/ws", "/ws/a");
    config.clear_recent_items();
    assert!(config.recent_items().is_empty());
    assert!(config.workspace_file_states().is_empty());
}

#[test]
fn opening_a_file_inside_the_workspace_remembers_it_there() {
    let mut config = Config::default();
    config.add_recent("/ws".to_string(), true);
    assert!(config.track_file_open(Some("/ws"), "/ws/src/a.rs"));
    assert_eq!(config.workspace_last_file("/ws"), Some("/ws/src/a.rs".to_string()));
    assert_eq!(config.recent_items().len(), 1);
    assert!(!config.track_file_open(Some("/ws"), "/elsewhere/b.rs"));
    assert_eq!(config.recent_items()[0].path, "/elsewhere/b.rs");
    assert!(!config.recent_items()[0].is_dir);
    assert!(!config.track_file_open(None, "/ws/c.rs"));
    assert_eq!(config.recent_items()[0].path, "/ws/c.rs");
    // A sibling folder that merely shares a prefix is not inside.
    assert!(!config.track_file_open(Some("/ws"), "/wsx/d.rs"));
}

#[test]
fn settings_defaults() {
    assert_eq!(default_theme_choice(), "auto");
    let theme = ThemeSettings::default();
    assert_eq!(theme.syntax_theme, "base16-ocean.dark");
    assert_eq!(theme.theme_path, None);
    let formatter = FormatterSettings::default();
    assert_eq!(formatter.command, "");
    assert_eq!(formatter.args, "--stdin");
    assert!(formatter.format_on_save);
    assert!(!formatter.is_configured());
    assert!(!formatter.formats_on_save());
    assert!(BehaviorSettings::default().smart_pairing);
}

#[test]
fn a_blank_formatter_command_is_not_configured() {
    let mut formatter = FormatterSettings::default();
    formatter.command = "  \t".to_string();
    assert!(!formatter.is_configured());
    formatter.command = " rustfmt ".to_string();
    assert!(formatter.is_configured());
    assert!(formatter.formats_on_save());
    formatter.format_on_save = false;
    assert!(!formatter.formats_on_save());
}

fn ws_session(workspace: &str, file: &str) -> lux::workbench::WorkspaceSession {
    lux::workbench::WorkspaceSession {
        workspace_path: workspace.to_string(),
        open_files: vec![file.to_string()],
        active_file: Some(file.to_string()),
        configuration_open: false,
        expanded_dirs: vec![workspace.to_string()],
    }
}

#[test]
fn a_workspace_session_reads_back_and_replaces_the_older_one() {
    let mut config = Config::default();
    assert!(config.workspace_session("/ws").is_none());
    config.set_workspace_session(ws_session("/ws", "/ws/a.rs"));
    config.set_workspace_session(ws_session("/other", "/other/x.rs"));
    config.set_workspace_session(ws_session("/ws/", "/ws/b.rs"));
    assert_eq!(config.workspace_sessions().len(), 2);
    let back = config.workspace_session("/ws").unwrap();
    assert_eq!(back.open_files, vec!["/ws/b.rs"]);
    assert_eq!(back.active_file.as_deref(), Some("/ws/b.rs"));
    let other = config.workspace_session("/other").unwrap();
    assert_eq!(other.open_files, vec!["/other/x.rs"]);
    assert!(config.workspace_session("/nowhere").is_none());
}
