//! The palette's command registry: each command's id, title, category,
//! keywords, icon, kind, when it is listed, and what running it does; and
//! the rows the palette shows for registered commands and recent items.

use vstd::prelude::*;

use crate::config::{recent_views, Config, RecentItem};
use crate::paths::{extension_of, file_name_of, path_extension, path_file_name};
use crate::text::{str_equal, string_views, to_owned_string};

verus! {

/// The registered commands.
#[derive(Clone, Copy, Debug, PartialEq, Eq, Structural)]
pub enum CommandId {
    SaveFile,
    FormatFile,
    OpenFile,
    OpenRecently,
    OpenFolder,
    SwitchToConfiguration,
    ToggleSidebar,
    ToggleMarkdownPreview,
    ClearRecentItems,
}

/// The icon glyph a command row leads with.
#[derive(Clone, Copy, Debug, PartialEq, Eq, Structural)]
pub enum Glyph {
    FloppyDisk,
    TextAlignLeft,
    Files,
    ClockCounterClockwise,
    FolderSimple,
    GearSix,
    SidebarSimple,
    Eye,
    Trash,
}

/// What selecting a command does to the palette.
#[derive(Clone, Copy, Debug, PartialEq, Eq, Structural)]
pub enum CommandKind {
    /// Run the command and close the palette.
    RunAndClose,
    /// Stay open on the recent-items list instead of running.
    ShowRecents,
}

/// The effect of running a command, carried out by the application.
#[derive(Clone, Copy, Debug, PartialEq, Eq, Structural)]
pub enum CommandEffect {
    SaveFile,
    FormatFile,
    /// Ask for a file and open it.
    PickFileToOpen,
    /// Ask for a folder and open it.
    PickFolderToOpen,
    OpenConfiguration,
    ToggleSidebar,
    ToggleMarkdownPreview,
    ClearRecentItems,
    Nothing,
}

/// What the frame tells the palette about the editor.
#[derive(Clone, Copy, Debug, PartialEq, Eq, Structural)]
pub struct PaletteContext {
    /// The active tab is a markdown document.
    pub active_is_markdown: bool,
}

/// A markdown file: its extension is `md` or `markdown`.
pub open spec fn is_markdown(path: Seq<char>) -> bool {
    extension_of(path) == Some("md"@) || extension_of(path) == Some("markdown"@)
}

/// What the palette is told about the active tab: it is a markdown
/// document when it is a text document (not the settings) saved as a
/// markdown file.
pub fn palette_context(active_path: Option<&str>, configuration_active: bool) -> (c: PaletteContext)
    ensures
        c.active_is_markdown == (!configuration_active && (active_path matches Some(p) && is_markdown(p@))),
{
    if configuration_active {
        return PaletteContext { active_is_markdown: false };
    }
    let markdown = match active_path {
        Some(p) => match path_extension(p) {
            Some(ext) => str_equal(ext.as_str(), "md") || str_equal(ext.as_str(), "markdown"),
            None => false,
        },
        None => false,
    };
    PaletteContext { active_is_markdown: markdown }
}

/// One registered palette command.
#[derive(Clone, Debug)]
pub struct Command {
    pub id: CommandId,
    pub title: String,
    /// Row subtitle and grouping label ("File", "View", "Workspace").
    pub category: String,
    pub keywords: Vec<String>,
    pub icon: Glyph,
    pub kind: CommandKind,
    /// Listed only while a markdown document is active.
    pub markdown_only: bool,
    pub effect: CommandEffect,
}

/// Which glyph a row leads with: a command glyph, a folder, or the icon of
/// a file's type.
#[derive(Clone, Debug)]
pub enum CommandIcon {
    Phosphor(Glyph),
    Folder,
    File(String),
}

/// What selecting a row does.
#[derive(Clone, Debug)]
pub enum PaletteTarget {
    /// Run a registered command.
    Registered(CommandId),
    /// Open a recent item; the path is checked again when it runs.
    OpenRecent { path: String, is_dir: bool },
}

/// A row ready for ranking and rendering.
#[derive(Clone, Debug)]
pub struct PaletteItem {
    pub title: String,
    pub subtitle: Option<String>,
    pub keywords: Vec<String>,
    pub icon: CommandIcon,
    pub target: PaletteTarget,
}

/// The commands in the order the palette lists them.
pub open spec fn registry_order() -> Seq<CommandId> {
    seq![
        CommandId::SaveFile,
        CommandId::FormatFile,
        CommandId::OpenFile,
        CommandId::OpenRecently,
        CommandId::OpenFolder,
        CommandId::SwitchToConfiguration,
        CommandId::ToggleSidebar,
        CommandId::ToggleMarkdownPreview,
        CommandId::ClearRecentItems,
    ]
}

/// The stable text id of a command; also its "Recently used" key.
pub open spec fn id_text(id: CommandId) -> Seq<char> {
    match id {
        CommandId::SaveFile => "save-file"@,
        CommandId::FormatFile => "format-file"@,
        CommandId::OpenFile => "open-file"@,
        CommandId::OpenRecently => "open-recently"@,
        CommandId::OpenFolder => "open-folder"@,
        CommandId::SwitchToConfiguration => "switch-to-configuration"@,
        CommandId::ToggleSidebar => "toggle-sidebar"@,
        CommandId::ToggleMarkdownPreview => "toggle-markdown-preview"@,
        CommandId::ClearRecentItems => "clear-recent-items"@,
    }
}

/// The command whose text id is `s`.
pub open spec fn command_named(s: Seq<char>) -> Option<CommandId> {
    if s == "save-file"@ {
        Some(CommandId::SaveFile)
    } else if s == "format-file"@ {
        Some(CommandId::FormatFile)
    } else if s == "open-file"@ {
        Some(CommandId::OpenFile)
    } else if s == "open-recently"@ {
        Some(CommandId::OpenRecently)
    } else if s == "open-folder"@ {
        Some(CommandId::OpenFolder)
    } else if s == "switch-to-configuration"@ {
        Some(CommandId::SwitchToConfiguration)
    } else if s == "toggle-sidebar"@ {
        Some(CommandId::ToggleSidebar)
    } else if s == "toggle-markdown-preview"@ {
        Some(CommandId::ToggleMarkdownPreview)
    } else if s == "clear-recent-items"@ {
        Some(CommandId::ClearRecentItems)
    } else {
        None
    }
}

/// A command's title.
pub open spec fn title_of(id: CommandId) -> Seq<char> {
    match id {
        CommandId::SaveFile => "Save File"@,
        CommandId::FormatFile => "Format File"@,
        CommandId::OpenFile => "Open File"@,
        CommandId::OpenRecently => "Open Recently"@,
        CommandId::OpenFolder => "Open Folder"@,
        CommandId::SwitchToConfiguration => "Switch To Configuration"@,
        CommandId::ToggleSidebar => "Toggle Sidebar"@,
        CommandId::ToggleMarkdownPreview => "Toggle Markdown Preview"@,
        CommandId::ClearRecentItems => "Clear Recent Items"@,
    }
}

/// A command's category.
pub open spec fn category_of(id: CommandId) -> Seq<char> {
    match id {
        CommandId::SaveFile | CommandId::FormatFile | CommandId::OpenFile | CommandId::OpenRecently
        | CommandId::OpenFolder => "File"@,
        CommandId::SwitchToConfiguration | CommandId::ToggleSidebar
        | CommandId::ToggleMarkdownPreview => "View"@,
        CommandId::ClearRecentItems => "Workspace"@,
    }
}

/// A command's search keywords.
pub open spec fn keywords_of(id: CommandId) -> Seq<Seq<char>> {
    match id {
        CommandId::SaveFile => seq!["save"@, "write"@, "file"@, "persist"@],
        CommandId::FormatFile => seq!["format"@, "formatter"@, "style"@, "pretty"@],
        CommandId::OpenFile => seq!["file"@, "open"@, "load"@],
        CommandId::OpenRecently => seq!["recent"@, "recently"@, "history"@, "open"@],
        CommandId::OpenFolder => seq!["folder"@, "workspace"@, "open"@],
        CommandId::SwitchToConfiguration => seq!["config"@, "settings"@, "preferences"@, "view"@],
        CommandId::ToggleSidebar => seq!["sidebar"@, "panel"@, "tree"@, "toggle"@],
        CommandId::ToggleMarkdownPreview => seq!["markdown"@, "preview"@, "toggle"@, "view"@, "render"@],
        CommandId::ClearRecentItems => seq!["recent"@, "clear"@, "history"@],
    }
}

/// A command's glyph.
pub open spec fn glyph_of(id: CommandId) -> Glyph {
    match id {
        CommandId::SaveFile => Glyph::FloppyDisk,
        CommandId::FormatFile => Glyph::TextAlignLeft,
        CommandId::OpenFile => Glyph::Files,
        CommandId::OpenRecently => Glyph::ClockCounterClockwise,
        CommandId::OpenFolder => Glyph::FolderSimple,
        CommandId::SwitchToConfiguration => Glyph::GearSix,
        CommandId::ToggleSidebar => Glyph::SidebarSimple,
        CommandId::ToggleMarkdownPreview => Glyph::Eye,
        CommandId::ClearRecentItems => Glyph::Trash,
    }
}

/// A command's kind: only "Open Recently" shows the recent list.
pub open spec fn kind_of(id: CommandId) -> CommandKind {
    match id {
        CommandId::OpenRecently => CommandKind::ShowRecents,
        _ => CommandKind::RunAndClose,
    }
}

/// Whether a command is listed only while a markdown document is active.
pub open spec fn markdown_only_of(id: CommandId) -> bool {
    id == CommandId::ToggleMarkdownPreview
}

/// What running a command does.
pub open spec fn effect_of(id: CommandId) -> CommandEffect {
    match id {
        CommandId::SaveFile => CommandEffect::SaveFile,
        CommandId::FormatFile => CommandEffect::FormatFile,
        CommandId::OpenFile => CommandEffect::PickFileToOpen,
        CommandId::OpenRecently => CommandEffect::Nothing,
        CommandId::OpenFolder => CommandEffect::PickFolderToOpen,
        CommandId::SwitchToConfiguration => CommandEffect::OpenConfiguration,
        CommandId::ToggleSidebar => CommandEffect::ToggleSidebar,
        CommandId::ToggleMarkdownPreview => CommandEffect::ToggleMarkdownPreview,
        CommandId::ClearRecentItems => CommandEffect::ClearRecentItems,
    }
}

/// Whether `id` is listed in `context`.
pub open spec fn listed(id: CommandId, context: PaletteContext) -> bool {
    !markdown_only_of(id) || context.active_is_markdown
}

impl Command {
    /// The command holds exactly the registry's entry for its id.
    pub open spec fn is_entry(&self) -> bool {
        &&& self.title@ == title_of(self.id)
        &&& self.category@ == category_of(self.id)
        &&& string_views(self.keywords@) == keywords_of(self.id)
        &&& self.icon == glyph_of(self.id)
        &&& self.kind == kind_of(self.id)
        &&& self.markdown_only == markdown_only_of(self.id)
        &&& self.effect == effect_of(self.id)
    }

    /// Whether the command is listed in `context`.
    pub fn available(&self, context: &PaletteContext) -> (r: bool)
        ensures
            r == (!self.markdown_only || context.active_is_markdown),
    {
        !self.markdown_only || context.active_is_markdown
    }

    /// The palette row of this command: its title, its category as the
    /// subtitle, its keywords and glyph, running the command when selected.
    pub fn palette_item(&self) -> (r: PaletteItem)
        ensures
            r.title@ == self.title@,
            r.subtitle matches Some(s) && s@ == self.category@,
            string_views(r.keywords@) == string_views(self.keywords@),
            r.icon == CommandIcon::Phosphor(self.icon),
            r.target == PaletteTarget::Registered(self.id),
    {
        PaletteItem {
            title: self.title.clone(),
            subtitle: Some(self.category.clone()),
            keywords: copy_strings(&self.keywords),
            icon: CommandIcon::Phosphor(self.icon),
            target: PaletteTarget::Registered(self.id),
        }
    }
}

/// A copy of a list of strings.
pub fn copy_strings(v: &Vec<String>) -> (r: Vec<String>)
    ensures
        string_views(r@) == string_views(v@),
{
    let mut out: Vec<String> = Vec::new();
    let mut i: usize = 0;
    while i < v.len()
        invariant
            i <= v.len(),
            string_views(out@) == string_views(v@).take(i as int),
        decreases v.len() - i,
    {
        let ghost before = out@;
        out.push(v[i].clone());
        proof {
            assert(string_views(out@) =~= string_views(before).push(v@[i as int]@));
            assert(string_views(v@).take(i + 1) =~= string_views(v@).take(i as int).push(v@[i as int]@));
        }
        i += 1;
    }
    proof {
        assert(string_views(v@).take(v.len() as int) =~= string_views(v@));
    }
    out
}

/// Strings from literals.
fn strings(words: &[&str]) -> (r: Vec<String>)
    ensures
        r@.len() == words@.len(),
        forall|i: int| 0 <= i < words@.len() ==> #[trigger] r@[i]@ == words@[i]@,
{
    let mut out: Vec<String> = Vec::new();
    let mut i: usize = 0;
    while i < words.len()
        invariant
            i <= words.len(),
            out@.len() == i,
            forall|k: int| 0 <= k < i ==> #[trigger] out@[k]@ == words@[k]@,
        decreases words.len() - i,
    {
        out.push(to_owned_string(words[i]));
        i += 1;
    }
    out
}

impl CommandId {
    /// The stable text id.
    pub fn as_str(&self) -> (r: &'static str)
        ensures
            r@ == id_text(*self),
    {
        match self {
            CommandId::SaveFile => "save-file",
            CommandId::FormatFile => "format-file",
            CommandId::OpenFile => "open-file",
            CommandId::OpenRecently => "open-recently",
            CommandId::OpenFolder => "open-folder",
            CommandId::SwitchToConfiguration => "switch-to-configuration",
            CommandId::ToggleSidebar => "toggle-sidebar",
            CommandId::ToggleMarkdownPreview => "toggle-markdown-preview",
            CommandId::ClearRecentItems => "clear-recent-items",
        }
    }
}

/// The registry entry of `id`.
pub fn command(id: CommandId) -> (r: Command)
    ensures
        r.id == id,
        r.is_entry(),
{
    let (title, category, words, icon): (&str, &str, Vec<String>, Glyph) = match id {
        CommandId::SaveFile => ("Save File", "File", strings(&["save", "write", "file", "persist"]), Glyph::FloppyDisk),
        CommandId::FormatFile => ("Format File", "File", strings(&["format", "formatter", "style", "pretty"]), Glyph::TextAlignLeft),
        CommandId::OpenFile => ("Open File", "File", strings(&["file", "open", "load"]), Glyph::Files),
        CommandId::OpenRecently => ("Open Recently", "File", strings(&["recent", "recently", "history", "open"]), Glyph::ClockCounterClockwise),
        CommandId::OpenFolder => ("Open Folder", "File", strings(&["folder", "workspace", "open"]), Glyph::FolderSimple),
        CommandId::SwitchToConfiguration => ("Switch To Configuration", "View", strings(&["config", "settings", "preferences", "view"]), Glyph::GearSix),
        CommandId::ToggleSidebar => ("Toggle Sidebar", "View", strings(&["sidebar", "panel", "tree", "toggle"]), Glyph::SidebarSimple),
        CommandId::ToggleMarkdownPreview => ("Toggle Markdown Preview", "View", strings(&["markdown", "preview", "toggle", "view", "render"]), Glyph::Eye),
        CommandId::ClearRecentItems => ("Clear Recent Items", "Workspace", strings(&["recent", "clear", "history"]), Glyph::Trash),
    };
    proof {
        assert(string_views(words@) =~= keywords_of(id));
    }
    let kind = match id {
        CommandId::OpenRecently => CommandKind::ShowRecents,
        _ => CommandKind::RunAndClose,
    };
    let effect = match id {
        CommandId::SaveFile => CommandEffect::SaveFile,
        CommandId::FormatFile => CommandEffect::FormatFile,
        CommandId::OpenFile => CommandEffect::PickFileToOpen,
        CommandId::OpenRecently => CommandEffect::Nothing,
        CommandId::OpenFolder => CommandEffect::PickFolderToOpen,
        CommandId::SwitchToConfiguration => CommandEffect::OpenConfiguration,
        CommandId::ToggleSidebar => CommandEffect::ToggleSidebar,
        CommandId::ToggleMarkdownPreview => CommandEffect::ToggleMarkdownPreview,
        CommandId::ClearRecentItems => CommandEffect::ClearRecentItems,
    };
    Command {
        id,
        title: to_owned_string(title),
        category: to_owned_string(category),
        keywords: words,
        icon,
        kind,
        markdown_only: matches!(id, CommandId::ToggleMarkdownPreview),
        effect,
    }
}

/// The registry, in listing order.
pub fn commands() -> (r: Vec<Command>)
    ensures
        r@.len() == registry_order().len(),
        forall|i: int| 0 <= i < r@.len() ==> #[trigger] r@[i].id == registry_order()[i] && r@[i].is_entry(),
{
    let ids = [
        CommandId::SaveFile,
        CommandId::FormatFile,
        CommandId::OpenFile,
        CommandId::OpenRecently,
        CommandId::OpenFolder,
        CommandId::SwitchToConfiguration,
        CommandId::ToggleSidebar,
        CommandId::ToggleMarkdownPreview,
        CommandId::ClearRecentItems,
    ];
    proof {
        assert(ids@ =~= registry_order());
    }
    let mut out: Vec<Command> = Vec::new();
    let mut i: usize = 0;
    while i < 9
        invariant
            i <= 9,
            ids@ == registry_order(),
            out@.len() == i,
            forall|k: int| 0 <= k < i ==> #[trigger] out@[k].id == registry_order()[k] && out@[k].is_entry(),
        decreases 9 - i,
    {
        out.push(command(ids[i]));
        i += 1;
    }
    out
}

/// The registered command with text id `id`.
pub fn by_id(id: &str) -> (r: Option<Command>)
    ensures
        match command_named(id@) {
            Some(found) => r matches Some(c) && c.id == found && c.is_entry(),
            None => r is None,
        },
{
    if str_equal(id, "save-file") {
        Some(command(CommandId::SaveFile))
    } else if str_equal(id, "format-file") {
        Some(command(CommandId::FormatFile))
    } else if str_equal(id, "open-file") {
        Some(command(CommandId::OpenFile))
    } else if str_equal(id, "open-recently") {
        Some(command(CommandId::OpenRecently))
    } else if str_equal(id, "open-folder") {
        Some(command(CommandId::OpenFolder))
    } else if str_equal(id, "switch-to-configuration") {
        Some(command(CommandId::SwitchToConfiguration))
    } else if str_equal(id, "toggle-sidebar") {
        Some(command(CommandId::ToggleSidebar))
    } else if str_equal(id, "toggle-markdown-preview") {
        Some(command(CommandId::ToggleMarkdownPreview))
    } else if str_equal(id, "clear-recent-items") {
        Some(command(CommandId::ClearRecentItems))
    } else {
        None
    }
}

/// `item` is the palette row of the registered command `id`.
pub open spec fn is_command_row(item: PaletteItem, id: CommandId) -> bool {
    &&& item.title@ == title_of(id)
    &&& item.subtitle matches Some(s) && s@ == category_of(id)
    &&& string_views(item.keywords@) == keywords_of(id)
    &&& item.icon == CommandIcon::Phosphor(glyph_of(id))
    &&& item.target == PaletteTarget::Registered(id)
}

/// The ids of `ids` that are listed in `context`, in order.
pub open spec fn listed_ids(ids: Seq<CommandId>, context: PaletteContext) -> Seq<CommandId> {
    ids.filter(|id: CommandId| listed(id, context))
}

/// The rows of the "Recently used" section: each stored id that is listed
/// in `context`, in order.
pub fn items_from_ids(ids: &Vec<CommandId>, context: &PaletteContext) -> (r: Vec<PaletteItem>)
    ensures
        r@.len() == listed_ids(ids@, *context).len(),
        forall|i: int| 0 <= i < r@.len() ==> is_command_row(#[trigger] r@[i], listed_ids(ids@, *context)[i]),
{
    let ghost pred = |id: CommandId| listed(id, *context);
    let mut out: Vec<PaletteItem> = Vec::new();
    let mut i: usize = 0;
    while i < ids.len()
        invariant
            i <= ids.len(),
            pred == (|id: CommandId| listed(id, *context)),
            out@.len() == ids@.take(i as int).filter(pred).len(),
            forall|k: int| 0 <= k < out@.len() ==> is_command_row(#[trigger] out@[k], ids@.take(i as int).filter(pred)[k]),
        decreases ids.len() - i,
    {
        proof {
            reveal(Seq::filter);
            assert(ids@.take(i + 1).drop_last() =~= ids@.take(i as int));
            assert(ids@.take(i + 1).last() == ids@[i as int]);
        }
        let c = command(ids[i]);
        if c.available(context) {
            out.push(c.palette_item());
        }
        i += 1;
    }
    proof {
        assert(ids@.take(ids.len() as int) =~= ids@);
    }
    out
}

/// The file name of `path`, or nothing.
pub open spec fn name_or_empty(path: Seq<char>) -> Seq<char> {
    match file_name_of(path) {
        Some(name) => name,
        None => Seq::<char>::empty(),
    }
}

/// `item` is the palette row of the recent entry `entry`: titled by its file
/// name (by its path when it has none), its path as the subtitle, searchable
/// by "recent", "open", "recently", its kind, name and path, and opening it
/// when selected.
pub open spec fn is_recent_row(item: PaletteItem, entry: (Seq<char>, bool)) -> bool {
    let path = entry.0;
    let is_dir = entry.1;
    let name = name_or_empty(path);
    &&& item.title@ == (if name.len() == 0 {
        path
    } else {
        name
    })
    &&& item.subtitle matches Some(s) && s@ == path
    &&& string_views(item.keywords@) == seq![
        "recent"@,
        "open"@,
        "recently"@,
        if is_dir {
            "folder"@
        } else {
            "file"@
        },
        name,
        path,
    ]
    &&& if is_dir {
        item.icon is Folder
    } else {
        item.icon matches CommandIcon::File(p) && p@ == path
    }
    &&& item.target matches PaletteTarget::OpenRecent { path: p, is_dir: d } && p@ == path && d == is_dir
}

/// The palette row of one recent item.
fn recent_row(item: &RecentItem) -> (r: PaletteItem)
    ensures
        is_recent_row(r, item@),
{
    let is_dir = item.is_dir;
    let path_display = item.path.clone();
    let name = match path_file_name(item.path.as_str()) {
        Some(n) => n,
        None => String::new(),
    };
    proof {
        assert(name@ == name_or_empty(item.path@));
    }
    let kind = if is_dir {
        to_owned_string("folder")
    } else {
        to_owned_string("file")
    };
    let title = if name.as_str().is_empty() {
        path_display.clone()
    } else {
        name.clone()
    };
    let icon = if is_dir {
        CommandIcon::Folder
    } else {
        CommandIcon::File(item.path.clone())
    };
    let keywords = vec![
        to_owned_string("recent"),
        to_owned_string("open"),
        to_owned_string("recently"),
        kind,
        name,
        path_display.clone(),
    ];
    let r = PaletteItem {
        title,
        subtitle: Some(path_display),
        keywords,
        icon,
        target: PaletteTarget::OpenRecent { path: item.path.clone(), is_dir },
    };
    proof {
        assert(string_views(r.keywords@) =~= seq![
            "recent"@,
            "open"@,
            "recently"@,
            if is_dir {
                "folder"@
            } else {
                "file"@
            },
            name_or_empty(item.path@),
            item.path@,
        ]);
    }
    r
}

/// The rows of the recent-items list, one per recent item, in order.
pub fn recent_items(config: &Config) -> (r: Vec<PaletteItem>)
    ensures
        r@.len() == config.recent().len(),
        forall|i: int| 0 <= i < r@.len() ==> is_recent_row(#[trigger] r@[i], config.recent()[i]),
{
    let items = config.recent_items();
    let mut out: Vec<PaletteItem> = Vec::new();
    let mut i: usize = 0;
    while i < items.len()
        invariant
            i <= items.len(),
            recent_views(items@) == config.recent(),
            out@.len() == i,
            forall|k: int| 0 <= k < i ==> is_recent_row(#[trigger] out@[k], config.recent()[k]),
        decreases items.len() - i,
    {
        proof {
            assert(recent_views(items@)[i as int] == items@[i as int]@);
        }
        out.push(recent_row(&items[i]));
        i += 1;
    }
    out
}

/// The key a palette target is remembered by: the command's id, or the
/// kind and path of a recent item.
pub open spec fn target_key(target: PaletteTarget) -> Seq<char> {
    match target {
        PaletteTarget::Registered(id) => id_text(id),
        PaletteTarget::OpenRecent { path, is_dir } => recent_key(path@, is_dir),
    }
}

/// The key of a recent item.
pub open spec fn recent_key(path: Seq<char>, is_dir: bool) -> Seq<char> {
    "open-recent-item-"@ + (if is_dir {
        "dir"@
    } else {
        "file"@
    }) + "-"@ + path
}

/// The key `target` is remembered by.
pub fn action_key(target: &PaletteTarget) -> (r: String)
    ensures
        r@ == target_key(*target),
{
    match target {
        PaletteTarget::Registered(id) => to_owned_string(id.as_str()),
        PaletteTarget::OpenRecent { path, is_dir } => {
            let kind = if *is_dir {
                "dir"
            } else {
                "file"
            };
            let mut chars = crate::text::str_chars("open-recent-item-");
            let mut tail = crate::text::str_chars(kind);
            let ghost kind_view = tail@;
            chars.append(&mut tail);
            let ghost with_kind = chars@;
            chars.push('-');
            let ghost with_dash = chars@;
            let mut path_chars = crate::text::str_chars(path.as_str());
            chars.append(&mut path_chars);
            proof {
                reveal_strlit("-");
                assert(kind_view == (if *is_dir {
                    "dir"@
                } else {
                    "file"@
                }));
                assert(with_kind =~= "open-recent-item-"@ + kind_view);
                assert(with_dash =~= "open-recent-item-"@ + kind_view + "-"@);
                assert(chars@ =~= recent_key(path@, *is_dir));
            }
            crate::text::string_from_chars(chars.as_slice())
        },
    }
}

/// Every command has its own id, and each id names its command.
pub proof fn law_registry_ids_are_unique()
    ensures
        forall|i: int, j: int|
            0 <= i < j < registry_order().len() ==> id_text(#[trigger] registry_order()[i]) != id_text(
                #[trigger] registry_order()[j],
            ),
        forall|id: CommandId| #[trigger] command_named(id_text(id)) == Some(id),
{
    reveal_strlit("save-file");
    reveal_strlit("format-file");
    reveal_strlit("open-file");
    reveal_strlit("open-recently");
    reveal_strlit("open-folder");
    reveal_strlit("switch-to-configuration");
    reveal_strlit("toggle-sidebar");
    reveal_strlit("toggle-markdown-preview");
    reveal_strlit("clear-recent-items");
    assert forall|id: CommandId| #[trigger] command_named(id_text(id)) == Some(id) by {
        match id {
            CommandId::SaveFile => {},
            CommandId::FormatFile => {
                assert("format-file"@[0] != "save-file"@[0]);
            },
            CommandId::OpenFile => {
                assert("open-file"@[0] != "save-file"@[0]);
                assert("open-file"@[0] != "format-file"@[0]);
            },
            CommandId::OpenRecently => {
                assert("open-recently"@.len() != "save-file"@.len());
                assert("open-recently"@.len() != "format-file"@.len());
                assert("open-recently"@.len() != "open-file"@.len());
            },
            CommandId::OpenFolder => {
                assert("open-folder"@[0] != "save-file"@[0]);
                assert("open-folder"@[5] != "format-file"@[5]);
                assert("open-folder"@.len() != "open-file"@.len());
                assert("open-folder"@.len() != "open-recently"@.len());
            },
            CommandId::SwitchToConfiguration => {
                assert("switch-to-configuration"@.len() != "save-file"@.len());
                assert("switch-to-configuration"@.len() != "format-file"@.len());
                assert("switch-to-configuration"@.len() != "open-file"@.len());
                assert("switch-to-configuration"@.len() != "open-recently"@.len());
                assert("switch-to-configuration"@.len() != "open-folder"@.len());
            },
            CommandId::ToggleSidebar => {
                assert("toggle-sidebar"@.len() != "save-file"@.len());
                assert("toggle-sidebar"@.len() != "format-file"@.len());
                assert("toggle-sidebar"@.len() != "open-file"@.len());
                assert("toggle-sidebar"@[0] != "open-recently"@[0]);
                assert("toggle-sidebar"@.len() != "open-folder"@.len());
                assert("toggle-sidebar"@.len() != "switch-to-configuration"@.len());
            },
            CommandId::ToggleMarkdownPreview => {
                assert("toggle-markdown-preview"@.len() != "save-file"@.len());
                assert("toggle-markdown-preview"@.len() != "format-file"@.len());
                assert("toggle-markdown-preview"@.len() != "open-file"@.len());
                assert("toggle-markdown-preview"@.len() != "open-recently"@.len());
                assert("toggle-markdown-preview"@.len() != "open-folder"@.len());
                assert("toggle-markdown-preview"@[0] != "switch-to-configuration"@[0]);
                assert("toggle-markdown-preview"@.len() != "toggle-sidebar"@.len());
            },
            CommandId::ClearRecentItems => {
                assert("clear-recent-items"@.len() != "save-file"@.len());
                assert("clear-recent-items"@.len() != "format-file"@.len());
                assert("clear-recent-items"@.len() != "open-file"@.len());
                assert("clear-recent-items"@.len() != "open-recently"@.len());
                assert("clear-recent-items"@.len() != "open-folder"@.len());
                assert("clear-recent-items"@.len() != "switch-to-configuration"@.len());
                assert("clear-recent-items"@.len() != "toggle-sidebar"@.len());
                assert("clear-recent-items"@.len() != "toggle-markdown-preview"@.len());
            },
        }
    }
    assert forall|i: int, j: int|
        0 <= i < j < registry_order().len() implies id_text(#[trigger] registry_order()[i]) != id_text(
            #[trigger] registry_order()[j],
        ) by {
        assert(command_named(id_text(registry_order()[i])) == Some(registry_order()[i]));
        assert(command_named(id_text(registry_order()[j])) == Some(registry_order()[j]));
    }
}

/// A recent file and a recent folder at the same path have different keys.
pub proof fn law_recent_keys_differ_by_kind(path: Seq<char>)
    ensures
        recent_key(path, true) != recent_key(path, false),
{
    reveal_strlit("open-recent-item-");
    reveal_strlit("dir");
    reveal_strlit("file");
    assert(recent_key(path, true)[17] == 'd');
    assert(recent_key(path, false)[17] == 'f');
}

} // verus!
