use lux::commands::{CommandIcon, CommandId, Glyph, PaletteItem, PaletteTarget};
use lux::rank::{
    fuzzy_match, fuzzy_score, positions_to_ranges, rank_commands, score_command, title_segments,
    trim_chars,
};

fn item(title: &str, keywords: &[&str]) -> PaletteItem {
    PaletteItem {
        title: title.to_string(),
        subtitle: None,
        keywords: keywords.iter().map(|k| k.to_string()).collect(),
        icon: CommandIcon::Phosphor(Glyph::FloppyDisk),
        target: PaletteTarget::OpenRecent { path: String::new(), is_dir: false },
    }
}

fn recent_entry() -> PaletteItem {
    PaletteItem {
        title: "rustfmt.toml".to_string(),
        subtitle: Some("/tmp/rustfmt.toml".to_string()),
        keywords: vec!["recent".to_string(), "rustfmt.toml".to_string()],
        icon: CommandIcon::File("/tmp/rustfmt.toml".to_string()),
        target: PaletteTarget::OpenRecent { path: "/tmp/rustfmt.toml".to_string(), is_dir: false },
    }
}

#[test]
fn rank_fuzzy_score_prefers_compact_matches() {
    let compact = fuzzy_score("opf", "Open File").unwrap();
    let sparse = fuzzy_score("opf", "Open Folder").unwrap();
    assert!(compact > sparse);
}

#[test]
fn rank_fuzzy_score_requires_subsequence() {
    assert!(fuzzy_score("xyz", "Open File").is_none());
}

#[test]
fn rank_rank_commands_can_match_recent_list_entry() {
    let ranked = rank_commands("rustfmt", vec![recent_entry()]);
    assert_eq!(ranked[0].command.title, "rustfmt.toml");
}

#[test]
fn rank_score_command_produces_title_match_spans() {
    let command = item("Save File", &[]);
    let (score, spans) = score_command("sf", &command).unwrap();
    assert!(score > 0);
    assert_eq!(spans.unwrap(), vec![(0, 1), (5, 6)]);
}

#[test]
fn rank_score_command_skips_emphasis_for_keyword_only_match() {
    let command = item("Save File", &["persist"]);
    let (_score, spans) = score_command("persist", &command).unwrap();
    assert!(spans.is_none());
}

#[test]
fn rank_empty_query_has_no_emphasis() {
    let command = item("Save File", &[]);
    let (_score, spans) = score_command("", &command).unwrap();
    assert!(spans.is_none());
}

#[test]
fn rank_positions_to_ranges_merges_runs() {
    assert_eq!(positions_to_ranges(&vec![0, 1, 2, 5]), vec![(0, 3), (5, 6)]);
    assert_eq!(positions_to_ranges(&vec![3]), vec![(3, 4)]);
    assert_eq!(positions_to_ranges(&vec![]), vec![]);
}

#[test]
fn rank_fuzzy_match_returns_positions() {
    let matched = fuzzy_match("opf", "Open File").unwrap();
    assert_eq!(matched.positions, vec![0, 1, 5]);
}

#[test]
fn fuzzy_score_follows_the_formula() {
    // "opf" in "open file": positions 0, 1, 5; 3*16 - 6*4 + 24 - 0 - 9.
    assert_eq!(fuzzy_score("opf", "Open File"), Some(39));
    // "opf" in "open folder": positions 0, 1, 5; 48 - 24 + 24 - 0 - 11.
    assert_eq!(fuzzy_score("opf", "Open Folder"), Some(37));
    // "fi" in "open file": positions 5, 6; 32 - 8 + 0 - 5 - 9.
    assert_eq!(fuzzy_score("fi", "Open File"), Some(10));
    // An empty query never matches on its own.
    assert_eq!(fuzzy_score("", "Open File"), None);
    // The query is also lowercased.
    assert_eq!(fuzzy_score("OPF", "open file"), Some(39));
}

#[test]
fn fuzzy_match_takes_the_earliest_position_for_each_character() {
    let matched = fuzzy_match("aa", "banana").unwrap();
    assert_eq!(matched.positions, vec![1, 3]);
    assert!(fuzzy_match("aaaa", "banana").is_none());
}

#[test]
fn blank_query_keeps_every_command_in_order_of_title() {
    let ranked = rank_commands(
        "   ",
        vec![item("Open Folder", &[]), item("Clear Recent Items", &[]), item("Open File", &[])],
    );
    let titles: Vec<&str> = ranked.iter().map(|r| r.command.title.as_str()).collect();
    assert_eq!(titles, vec!["Clear Recent Items", "Open File", "Open Folder"]);
    assert!(ranked.iter().all(|r| r.score == 0 && r.match_spans.is_none()));
}

#[test]
fn ranking_drops_misses_and_sorts_best_first() {
    let ranked = rank_commands(
        "opf",
        vec![item("Open Folder", &[]), item("Save File", &[]), item("Open File", &[])],
    );
    let titles: Vec<&str> = ranked.iter().map(|r| r.command.title.as_str()).collect();
    assert_eq!(titles, vec!["Open File", "Open Folder"]);
    assert_eq!(ranked[0].score, 39);
    assert_eq!(ranked[0].match_spans, Some(vec![(0, 2), (5, 6)]));
}

#[test]
fn ranking_keeps_equal_rows_in_their_order() {
    let mut first = item("Same", &[]);
    first.subtitle = Some("first".to_string());
    let mut second = item("Same", &[]);
    second.subtitle = Some("second".to_string());
    let ranked = rank_commands("", vec![first, second]);
    assert_eq!(ranked[0].command.subtitle.as_deref(), Some("first"));
    assert_eq!(ranked[1].command.subtitle.as_deref(), Some("second"));
}

#[test]
fn keywords_can_outscore_the_title() {
    let command = item("Switch To Configuration", &["settings"]);
    let (score, spans) = score_command("set", &command).unwrap();
    // "set" in "settings": 48 - 12 + 24 - 0 - 8.
    assert_eq!(score, 52);
    // The title has no "e", so only the keyword matched: no emphasis.
    assert!(spans.is_none());
}

#[test]
fn query_is_trimmed_before_matching() {
    assert_eq!(trim_chars("  save \n"), vec!['s', 'a', 'v', 'e']);
    let command = item("Save File", &[]);
    assert_eq!(score_command("  sf ", &command), score_command("sf", &command));
}

#[test]
fn title_segments_split_emphasis_runs() {
    let spans = Some(vec![(0, 1), (5, 6)]);
    let segments = title_segments("Save File", &spans);
    assert_eq!(
        segments,
        vec![
            ("S".to_string(), true),
            ("ave ".to_string(), false),
            ("F".to_string(), true),
            ("ile".to_string(), false),
        ]
    );
    assert_eq!(title_segments("Save", &None), vec![("Save".to_string(), false)]);
    assert_eq!(title_segments("", &None), vec![(String::new(), false)]);
}

#[test]
fn registered_rows_rank_with_recent_rows() {
    let mut open = item("Open File", &["file", "open", "load"]);
    open.target = PaletteTarget::Registered(CommandId::OpenFile);
    let ranked = rank_commands("load", vec![recent_entry(), open]);
    assert_eq!(ranked.len(), 1);
    assert!(matches!(ranked[0].command.target, PaletteTarget::Registered(CommandId::OpenFile)));
}

#[test]
fn a_very_long_candidate_is_still_matched() {
    let mut candidate = "a".repeat(0x100_0000 + 10);
    candidate.push('b');
    let len = candidate.chars().count() as i64;
    let expected = 16 - 4 - (len - 1) - len;
    assert_eq!(fuzzy_score("b", &candidate), Some(expected as i32));
}
