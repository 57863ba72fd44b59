use lux::commands::{by_id, CommandEffect, CommandId, CommandKind, PaletteContext, PaletteTarget};
use lux::config::{Config, RecentItem};
use lux::panel::{flat_targets, CommandPanel, CommandPanelMode, FooterHint, PanelInput, PanelOutcome};
use lux::rank::{fuzzy_score, positions_to_ranges, score_command, fuzzy_match, rank_commands};
use lux::commands::{CommandIcon, Glyph, PaletteItem};

fn ids(panel: &CommandPanel) -> Vec<&'static str> {
    panel.recent_used().iter().map(|id| id.as_str()).collect()
}

fn no_input() -> PanelInput {
    PanelInput {
        hovered: None,
        clicked: None,
        escape: false,
        arrow_down: false,
        arrow_up: false,
        enter: false,
        clicked_outside: false,
    }
}

fn save_file_item() -> PaletteItem {
    PaletteItem {
        title: "Save File".to_string(),
        subtitle: None,
        keywords: vec![],
        icon: CommandIcon::Phosphor(Glyph::FloppyDisk),
        target: PaletteTarget::Registered(CommandId::SaveFile),
    }
}

#[test]
fn recent_used_keeps_latest_first_and_caps() {
    let mut panel = CommandPanel::default();
    let targets = ["save-file", "open-folder", "toggle-sidebar", "format-file"]
        .iter()
        .map(|id| PaletteTarget::Registered(by_id(id).unwrap().id))
        .collect::<Vec<_>>();
    for target in &targets {
        panel.remember(target);
    }
    assert_eq!(ids(&panel), vec!["format-file", "toggle-sidebar", "open-folder", "save-file"]);
    panel.remember(&targets[0]);
    assert_eq!(panel.recent_used().len(), 4);
    assert_eq!(ids(&panel)[0], "save-file");
}

#[test]
fn recent_used_skips_recent_item_targets() {
    let mut panel = CommandPanel::default();
    panel.remember(&PaletteTarget::OpenRecent { path: "/tmp/project".to_string(), is_dir: true });
    assert!(panel.recent_used().is_empty());
}

#[test]
fn open_recently_command_has_show_recents_kind() {
    let command = by_id("open-recently").unwrap();
    assert_eq!(command.kind, CommandKind::ShowRecents);
}

#[test]
fn recent_used_skips_open_recent_item_actions() {
    let mut panel = CommandPanel::default();
    panel.remember(&PaletteTarget::OpenRecent { path: "/tmp/project".to_string(), is_dir: true });
    assert!(panel.recent_used().is_empty());
    panel.remember(&PaletteTarget::Registered(CommandId::SaveFile));
    assert_eq!(panel.recent_used().len(), 1);
}

#[test]
fn recent_used_is_capped_at_five() {
    let mut panel = CommandPanel::new();
    for id in [
        CommandId::SaveFile,
        CommandId::FormatFile,
        CommandId::OpenFile,
        CommandId::OpenFolder,
        CommandId::ToggleSidebar,
        CommandId::ClearRecentItems,
    ] {
        panel.remember(&PaletteTarget::Registered(id));
    }
    assert_eq!(
        ids(&panel),
        vec!["clear-recent-items", "toggle-sidebar", "open-folder", "open-file", "format-file"]
    );
}

#[test]
fn action_meta_consistency_between_root_and_recent_used() {
    let context = PaletteContext { active_is_markdown: false };
    let panel = CommandPanel::new();
    let root_titles: Vec<String> =
        panel.root_commands(&context).into_iter().map(|c| c.title).collect();
    for id in [
        CommandId::SaveFile,
        CommandId::FormatFile,
        CommandId::OpenFile,
        CommandId::OpenRecently,
        CommandId::OpenFolder,
        CommandId::SwitchToConfiguration,
        CommandId::ToggleSidebar,
        CommandId::ClearRecentItems,
    ] {
        let recent_titles: Vec<String> = lux::commands::items_from_ids(&vec![id], &context)
            .into_iter()
            .map(|item| item.title)
            .collect();
        assert!(root_titles.contains(&recent_titles[0]), "meta drift for {id:?}");
    }
}

#[test]
fn command_panel_root_commands_include_open_recently() {
    let context = PaletteContext { active_is_markdown: false };
    let has_open_recently = CommandPanel::new()
        .root_commands(&context)
        .into_iter()
        .any(|command| command.title == "Open Recently");
    assert!(has_open_recently);
}

#[test]
fn command_panel_fuzzy_score_prefers_compact_matches() {
    let compact = fuzzy_score("opf", "Open File").unwrap();
    let sparse = fuzzy_score("opf", "Open Folder").unwrap();
    assert!(compact > sparse);
}

#[test]
fn command_panel_fuzzy_score_requires_subsequence() {
    assert!(fuzzy_score("xyz", "Open File").is_none());
}

#[test]
fn command_panel_rank_commands_can_match_recent_list_entry() {
    let ranked = rank_commands(
        "rustfmt",
        vec![PaletteItem {
            title: "rustfmt.toml".to_string(),
            subtitle: Some("/tmp/rustfmt.toml".to_string()),
            keywords: vec!["recent".to_string(), "rustfmt.toml".to_string()],
            icon: CommandIcon::File("/tmp/rustfmt.toml".to_string()),
            target: PaletteTarget::OpenRecent {
                path: "/tmp/rustfmt.toml".to_string(),
                is_dir: false,
            },
        }],
    );
    assert_eq!(ranked[0].command.title, "rustfmt.toml");
}

#[test]
fn command_panel_score_command_produces_title_match_spans() {
    let (score, spans) = score_command("sf", &save_file_item()).unwrap();
    assert!(score > 0);
    assert_eq!(spans.unwrap(), vec![(0, 1), (5, 6)]);
}

#[test]
fn command_panel_score_command_skips_emphasis_for_keyword_only_match() {
    let mut command = save_file_item();
    command.keywords = vec!["persist".to_string()];
    let (_score, spans) = score_command("persist", &command).unwrap();
    assert!(spans.is_none());
}

#[test]
fn command_panel_empty_query_has_no_emphasis() {
    let (_score, spans) = score_command("", &save_file_item()).unwrap();
    assert!(spans.is_none());
}

#[test]
fn command_panel_positions_to_ranges_merges_runs() {
    assert_eq!(positions_to_ranges(&vec![0, 1, 2, 5]), vec![(0, 3), (5, 6)]);
    assert_eq!(positions_to_ranges(&vec![3]), vec![(3, 4)]);
    assert_eq!(positions_to_ranges(&vec![]), vec![]);
}

#[test]
fn command_panel_fuzzy_match_returns_positions() {
    let matched = fuzzy_match("opf", "Open File").unwrap();
    assert_eq!(matched.positions, vec![0, 1, 5]);
}

#[test]
fn toggle_opens_fresh_and_closes() {
    let mut panel = CommandPanel::new();
    assert!(!panel.open());
    panel.toggle();
    assert!(panel.open());
    assert_eq!(panel.mode(), CommandPanelMode::Root);
    assert_eq!(panel.query(), "");
    assert_eq!(panel.query_hint(), "Type a command");
    assert_eq!(panel.footer_hint(), FooterHint::Root);
    panel.set_query("abc".to_string());
    panel.toggle();
    assert!(!panel.open());
    assert_eq!(panel.query(), "");
}

#[test]
fn display_shows_recently_used_only_for_a_blank_query() {
    let config = Config::default();
    let context = PaletteContext { active_is_markdown: false };
    let mut panel = CommandPanel::new();
    panel.toggle();
    let groups = panel.display_commands(&config, &context);
    assert_eq!(groups.len(), 1);
    assert_eq!(groups[0].title, None);
    assert_eq!(groups[0].commands.len(), 8);

    panel.remember(&PaletteTarget::Registered(CommandId::OpenFolder));
    assert!(panel.show_recent_used_section());
    let groups = panel.display_commands(&config, &context);
    assert_eq!(groups.len(), 2);
    assert_eq!(groups[0].title, Some("Recently used"));
    assert_eq!(groups[0].commands.len(), 1);
    assert_eq!(groups[0].commands[0].command.title, "Open Folder");
    assert_eq!(groups[0].commands[0].score, i32::MAX);
    assert_eq!(groups[1].title, Some("All commands"));
    assert_eq!(groups[1].commands.len(), 7);
    assert!(groups[1].commands.iter().all(|r| r.command.title != "Open Folder"));

    panel.set_query("save".to_string());
    assert!(!panel.show_recent_used_section());
    let groups = panel.display_commands(&config, &context);
    assert_eq!(groups.len(), 1);
    assert_eq!(groups[0].commands[0].command.title, "Save File");
}

#[test]
fn open_recently_switches_to_the_recent_list_and_escape_goes_back() {
    let config = Config::new(
        vec![
            RecentItem { path: "/tmp/a.rs".to_string(), is_dir: false },
            RecentItem { path: "/tmp/ws".to_string(), is_dir: true },
        ],
        vec![],
        vec![],
    );
    let context = PaletteContext { active_is_markdown: false };
    let mut panel = CommandPanel::new();
    panel.toggle();
    panel.set_query("open rec".to_string());
    let groups = panel.display_commands(&config, &context);
    let targets = flat_targets(&groups);
    assert!(matches!(targets[0], PaletteTarget::Registered(CommandId::OpenRecently)));
    let mut input = no_input();
    input.enter = true;
    assert!(matches!(panel.step(&targets, &input), PanelOutcome::Stay));
    assert!(panel.open());
    assert_eq!(panel.mode(), CommandPanelMode::RecentList);
    assert_eq!(panel.query_hint(), "Select recent item");
    assert_eq!(panel.footer_hint(), FooterHint::RecentList);
    assert_eq!(ids(&panel), vec!["open-recently"]);

    let groups = panel.display_commands(&config, &context);
    assert_eq!(groups[0].title, Some("Recent items"));
    let targets = flat_targets(&groups);
    assert_eq!(targets.len(), 2);

    let mut input = no_input();
    input.escape = true;
    assert!(matches!(panel.step(&targets, &input), PanelOutcome::Stay));
    assert!(panel.open());
    assert_eq!(panel.mode(), CommandPanelMode::Root);
}

#[test]
fn arrows_wrap_and_enter_runs_the_selected_command() {
    let config = Config::default();
    let context = PaletteContext { active_is_markdown: false };
    let mut panel = CommandPanel::new();
    panel.toggle();
    let targets = flat_targets(&panel.display_commands(&config, &context));
    assert_eq!(targets.len(), 8);
    let mut up = no_input();
    up.arrow_up = true;
    panel.step(&targets, &up);
    assert_eq!(panel.selected(), 7);
    let mut down = no_input();
    down.arrow_down = true;
    panel.step(&targets, &down);
    assert_eq!(panel.selected(), 0);
    panel.step(&targets, &down);
    assert_eq!(panel.selected(), 1);
    let mut enter = no_input();
    enter.enter = true;
    let selected = panel.selected();
    let expected = match &targets[selected] {
        PaletteTarget::Registered(id) => lux::commands::command(*id).effect,
        _ => panic!("root rows are commands"),
    };
    match panel.step(&targets, &enter) {
        PanelOutcome::Run(effect) => assert_eq!(effect, expected),
        _ => panic!("enter runs the selected command"),
    }
    assert!(!panel.open());
    assert_eq!(panel.recent_used().len(), 1);
}

#[test]
fn clicking_a_recent_item_opens_it_and_closes() {
    let targets = vec![PaletteTarget::OpenRecent { path: "/tmp/ws".to_string(), is_dir: true }];
    let mut panel = CommandPanel::new();
    panel.toggle();
    let mut input = no_input();
    input.clicked = Some(0);
    match panel.step(&targets, &input) {
        PanelOutcome::OpenRecent { path, is_dir } => {
            assert_eq!(path, "/tmp/ws");
            assert!(is_dir);
        }
        _ => panic!("a click opens the recent item"),
    }
    assert!(!panel.open());
    assert!(panel.recent_used().is_empty());
}

#[test]
fn escape_or_outside_click_closes_without_running() {
    let targets = vec![PaletteTarget::Registered(CommandId::SaveFile)];
    for outside in [false, true] {
        let mut panel = CommandPanel::new();
        panel.toggle();
        let mut input = no_input();
        input.escape = !outside;
        input.clicked_outside = outside;
        input.enter = true;
        assert!(matches!(panel.step(&targets, &input), PanelOutcome::Stay));
        assert!(!panel.open());
        assert!(panel.recent_used().is_empty());
    }
}

#[test]
fn selection_is_clamped_and_follows_the_pointer() {
    let targets = vec![
        PaletteTarget::Registered(CommandId::SaveFile),
        PaletteTarget::Registered(CommandId::OpenFile),
        PaletteTarget::Registered(CommandId::OpenFolder),
    ];
    let mut panel = CommandPanel::new();
    panel.toggle();
    let mut input = no_input();
    input.hovered = Some(2);
    panel.step(&targets, &input);
    assert_eq!(panel.selected(), 2);
    let shorter = vec![PaletteTarget::Registered(CommandId::SaveFile)];
    panel.step(&shorter, &no_input());
    assert_eq!(panel.selected(), 0);
    panel.step(&vec![], &no_input());
    assert_eq!(panel.selected(), 0);
}

#[test]
fn a_closed_panel_ignores_input() {
    let targets = vec![PaletteTarget::Registered(CommandId::SaveFile)];
    let mut panel = CommandPanel::new();
    let mut input = no_input();
    input.enter = true;
    assert!(matches!(panel.step(&targets, &input), PanelOutcome::Stay));
    assert!(!panel.open());
    assert!(panel.recent_used().is_empty());
    let _ = CommandEffect::Nothing;
}
