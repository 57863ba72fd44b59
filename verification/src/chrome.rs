//! The window chrome's state and decisions: which view shows, what the
//! title-bar menus do, the about window, the unsaved-changes prompt, the
//! sidebar and markdown preview toggles, and what the status bar says.

use vstd::prelude::*;

use crate::document::EditorCommand;
use crate::text::{concat, decimal, usize_to_string};

verus! {

/// The main area: the editor or the settings.
#[derive(Clone, Copy, Debug, PartialEq, Eq, Structural)]
pub enum ShellView {
    Editor,
    Configuration,
}

/// The actions of the title-bar menus (and the native menu bar and tray).
#[derive(Clone, Copy, Debug, PartialEq, Eq, Structural)]
pub enum TitleBarMenu {
    OpenFile,
    OpenFolder,
    CloseTab,
    SaveFile,
    Undo,
    Redo,
    Cut,
    Copy,
    Paste,
    SelectAll,
    CommandPalette,
    ToggleSidebar,
    Hide,
    Quit,
    ToggleWindowVisibility,
    About,
}

/// What the application does for a menu action.
#[derive(Clone, Debug, PartialEq, Eq)]
pub enum MenuAction {
    /// Ask for a file and open it.
    PickFileToOpen,
    /// Ask for a folder and open it.
    PickFolderToOpen,
    CloseActiveTab,
    SaveFile,
    /// Send an editing command to whatever owns the keyboard.
    Edit(EditorCommand),
    /// Paste the clipboard's text, if it holds any.
    PasteClipboard,
    ToggleCommandPanel,
    ToggleSidebar,
    HideWindow,
    Quit,
    ToggleWindowVisibility,
    ShowAbout,
}

/// The action of a menu item.
pub open spec fn action_of(menu: TitleBarMenu) -> MenuAction {
    match menu {
        TitleBarMenu::OpenFile => MenuAction::PickFileToOpen,
        TitleBarMenu::OpenFolder => MenuAction::PickFolderToOpen,
        TitleBarMenu::CloseTab => MenuAction::CloseActiveTab,
        TitleBarMenu::SaveFile => MenuAction::SaveFile,
        TitleBarMenu::Undo => MenuAction::Edit(EditorCommand::Undo),
        TitleBarMenu::Redo => MenuAction::Edit(EditorCommand::Redo),
        TitleBarMenu::Cut => MenuAction::Edit(EditorCommand::Cut),
        TitleBarMenu::Copy => MenuAction::Edit(EditorCommand::Copy),
        TitleBarMenu::Paste => MenuAction::PasteClipboard,
        TitleBarMenu::SelectAll => MenuAction::Edit(EditorCommand::SelectAll),
        TitleBarMenu::CommandPalette => MenuAction::ToggleCommandPanel,
        TitleBarMenu::ToggleSidebar => MenuAction::ToggleSidebar,
        TitleBarMenu::Hide => MenuAction::HideWindow,
        TitleBarMenu::Quit => MenuAction::Quit,
        TitleBarMenu::ToggleWindowVisibility => MenuAction::ToggleWindowVisibility,
        TitleBarMenu::About => MenuAction::ShowAbout,
    }
}

/// What a menu item does.
pub fn on_title_bar_menu(menu: TitleBarMenu) -> (r: MenuAction)
    ensures
        r == action_of(menu),
{
    match menu {
        TitleBarMenu::OpenFile => MenuAction::PickFileToOpen,
        TitleBarMenu::OpenFolder => MenuAction::PickFolderToOpen,
        TitleBarMenu::CloseTab => MenuAction::CloseActiveTab,
        TitleBarMenu::SaveFile => MenuAction::SaveFile,
        TitleBarMenu::Undo => MenuAction::Edit(EditorCommand::Undo),
        TitleBarMenu::Redo => MenuAction::Edit(EditorCommand::Redo),
        TitleBarMenu::Cut => MenuAction::Edit(EditorCommand::Cut),
        TitleBarMenu::Copy => MenuAction::Edit(EditorCommand::Copy),
        TitleBarMenu::Paste => MenuAction::PasteClipboard,
        TitleBarMenu::SelectAll => MenuAction::Edit(EditorCommand::SelectAll),
        TitleBarMenu::CommandPalette => MenuAction::ToggleCommandPanel,
        TitleBarMenu::ToggleSidebar => MenuAction::ToggleSidebar,
        TitleBarMenu::Hide => MenuAction::HideWindow,
        TitleBarMenu::Quit => MenuAction::Quit,
        TitleBarMenu::ToggleWindowVisibility => MenuAction::ToggleWindowVisibility,
        TitleBarMenu::About => MenuAction::ShowAbout,
    }
}

/// The key or clipboard event a focused single-line text field handles for
/// an editing command.
#[derive(Clone, Debug, PartialEq, Eq)]
pub enum TextEditShortcut {
    /// A key pressed with the command modifier, and Shift when `shift`.
    CommandKey { key: char, shift: bool },
    Cut,
    Copy,
    Paste(String),
}

/// The text-field event for an editing command other than paste, if a text
/// field handles one: select all, undo and redo as their shortcuts, cut and
/// copy as the clipboard events.
pub open spec fn shortcut_of(command: EditorCommand) -> Option<TextEditShortcut> {
    match command {
        EditorCommand::SelectAll => Some(TextEditShortcut::CommandKey { key: 'A', shift: false }),
        EditorCommand::Undo => Some(TextEditShortcut::CommandKey { key: 'Z', shift: false }),
        EditorCommand::Redo => Some(TextEditShortcut::CommandKey { key: 'Z', shift: true }),
        EditorCommand::Cut => Some(TextEditShortcut::Cut),
        EditorCommand::Copy => Some(TextEditShortcut::Copy),
        _ => None,
    }
}

/// The text-field event for an editing command, if a text field handles
/// one; paste carries its text.
pub fn text_edit_shortcut(command: &EditorCommand) -> (r: Option<TextEditShortcut>)
    ensures
        match *command {
            EditorCommand::Paste(text) => r matches Some(TextEditShortcut::Paste(t)) && t@ == text@,
            _ => r == shortcut_of(*command),
        },
{
    match command {
        EditorCommand::SelectAll => Some(TextEditShortcut::CommandKey { key: 'A', shift: false }),
        EditorCommand::Undo => Some(TextEditShortcut::CommandKey { key: 'Z', shift: false }),
        EditorCommand::Redo => Some(TextEditShortcut::CommandKey { key: 'Z', shift: true }),
        EditorCommand::Cut => Some(TextEditShortcut::Cut),
        EditorCommand::Copy => Some(TextEditShortcut::Copy),
        EditorCommand::Paste(text) => Some(TextEditShortcut::Paste(text.clone())),
        _ => None,
    }
}

/// The about window, open or closed.
#[derive(Clone, Copy, Debug, PartialEq, Eq, Structural)]
pub struct AboutWindow {
    open: bool,
}

impl AboutWindow {
    pub closed spec fn is_open(&self) -> bool {
        self.open
    }

    /// A closed about window.
    pub fn new() -> (r: AboutWindow)
        ensures
            !r.is_open(),
    {
        AboutWindow { open: false }
    }

    /// Show the window.
    pub fn open(&mut self)
        ensures
            final(self).is_open(),
    {
        self.open = true;
    }

    /// Hide the window (its Close button).
    pub fn close(&mut self)
        ensures
            !final(self).is_open(),
    {
        self.open = false;
    }

    /// Whether the window shows.
    pub fn visible(&self) -> (r: bool)
        ensures
            r == self.is_open(),
    {
        self.open
    }
}

impl Default for AboutWindow {
    fn default() -> (r: AboutWindow)
        ensures
            !r.is_open(),
    {
        AboutWindow::new()
    }
}

/// The answer to the unsaved-changes prompt.
#[derive(Clone, Copy, Debug, PartialEq, Eq, Structural)]
pub enum CloseChoice {
    Save,
    Discard,
    Cancel,
}

/// What the application does after the prompt is answered.
#[derive(Clone, Copy, Debug, PartialEq, Eq, Structural)]
pub enum CloseRequest {
    /// Save the tab and close it once the write lands clean.
    SaveAndClose(u64),
    /// Close the tab, dropping its edits.
    Discard(u64),
}

/// The tab, if any, waiting for a decision on its unsaved changes.
#[derive(Clone, Copy, Debug, PartialEq, Eq, Structural)]
pub struct ClosePrompt {
    target: Option<u64>,
}

/// The answer one frame of the prompt gives: a clicked button, else
/// Cancel when the prompt is dismissed, else Save on Enter.
pub open spec fn answer_of(clicked: Option<CloseChoice>, dismissed: bool, enter: bool) -> Option<CloseChoice> {
    match clicked {
        Some(c) => Some(c),
        None => if dismissed {
            Some(CloseChoice::Cancel)
        } else if enter {
            Some(CloseChoice::Save)
        } else {
            None
        },
    }
}

impl ClosePrompt {
    pub closed spec fn target_view(&self) -> Option<u64> {
        self.target
    }

    /// No prompt.
    pub fn new() -> (r: ClosePrompt)
        ensures
            r.target_view() is None,
    {
        ClosePrompt { target: None }
    }

    /// Ask about tab `id`.
    pub fn request(&mut self, id: u64)
        ensures
            final(self).target_view() == Some(id),
    {
        self.target = Some(id);
    }

    /// Stop asking.
    pub fn cancel(&mut self)
        ensures
            final(self).target_view() is None,
    {
        self.target = None;
    }

    /// Whether the prompt shows.
    pub fn is_open(&self) -> (r: bool)
        ensures
            r == (self.target_view() is Some),
    {
        self.target.is_some()
    }

    /// Whether the prompt is asking about `id`.
    pub fn is_open_for(&self, id: u64) -> (r: bool)
        ensures
            r == (self.target_view() == Some(id)),
    {
        match self.target {
            Some(t) => t == id,
            None => false,
        }
    }

    /// Apply one frame of the prompt. A prompt whose tab is gone closes
    /// without asking; otherwise a clicked button, a dismissal (Cancel) or
    /// Enter (Save) answers it, and the prompt closes on any answer.
    pub fn resolve(&mut self, tab_exists: bool, clicked: Option<CloseChoice>, dismissed: bool, enter: bool) -> (r: Option<CloseRequest>)
        ensures
            match old(self).target_view() {
                None => r is None && final(self).target_view() is None,
                Some(id) => if !tab_exists {
                    r is None && final(self).target_view() is None
                } else {
                    match answer_of(clicked, dismissed, enter) {
                        None => r is None && final(self).target_view() == Some(id),
                        Some(CloseChoice::Save) => r == Some(CloseRequest::SaveAndClose(id))
                            && final(self).target_view() is None,
                        Some(CloseChoice::Discard) => r == Some(CloseRequest::Discard(id))
                            && final(self).target_view() is None,
                        Some(CloseChoice::Cancel) => r is None && final(self).target_view() is None,
                    }
                },
            },
    {
        let id = match self.target {
            Some(id) => id,
            None => return None,
        };
        if !tab_exists {
            self.target = None;
            return None;
        }
        let choice = match clicked {
            Some(c) => Some(c),
            None => if dismissed {
                Some(CloseChoice::Cancel)
            } else if enter {
                Some(CloseChoice::Save)
            } else {
                None
            },
        };
        match choice {
            Some(CloseChoice::Save) => {
                self.target = None;
                Some(CloseRequest::SaveAndClose(id))
            },
            Some(CloseChoice::Discard) => {
                self.target = None;
                Some(CloseRequest::Discard(id))
            },
            Some(CloseChoice::Cancel) => {
                self.target = None;
                None
            },
            None => None,
        }
    }
}

impl Default for ClosePrompt {
    fn default() -> (r: ClosePrompt)
        ensures
            r.target_view() is None,
    {
        ClosePrompt::new()
    }
}

/// What the status bar shows.
#[derive(Clone, Copy, Debug, PartialEq, Eq)]
pub struct StatusBarData {
    /// The sidebar is open: its toggle is accented.
    pub sidebar_active: bool,
    /// Line, column and selection length; none while the active tab has no
    /// text caret (the settings, or a picture).
    pub cursor: Option<(usize, usize, usize)>,
    /// None when the active tab is not markdown; otherwise whether the
    /// preview is open.
    pub markdown_preview: Option<bool>,
    /// Size on disk of the active tab's file, as last loaded or saved.
    pub file_size: Option<u64>,
}

/// The status bar's caret readout: "Ln {line}, Col {column}  Sel {length}".
pub open spec fn cursor_label_view(line: nat, column: nat, selection: nat) -> Seq<char> {
    "Ln "@ + decimal(line) + ", Col "@ + decimal(column) + "  Sel "@ + decimal(selection)
}

/// The caret readout of the status bar.
pub fn cursor_label(line: usize, column: usize, selection: usize) -> (r: String)
    ensures
        r@ == cursor_label_view(line as nat, column as nat, selection as nat),
{
    let a = concat("Ln ", usize_to_string(line).as_str());
    let b = concat(a.as_str(), ", Col ");
    let c = concat(b.as_str(), usize_to_string(column).as_str());
    let d = concat(c.as_str(), "  Sel ");
    concat(d.as_str(), usize_to_string(selection).as_str())
}

/// Total length of selection ranges.
pub open spec fn total_len(ranges: Seq<(usize, usize)>) -> int
    decreases ranges.len(),
{
    if ranges.len() == 0 {
        0
    } else {
        total_len(ranges.drop_last()) + (ranges.last().1 - ranges.last().0)
    }
}

/// What one frame of the shell shows of the active tab.
#[derive(Clone, Debug)]
pub struct ShellFrame {
    /// Caret positions as one-based (line, column).
    pub carets: Vec<(usize, usize)>,
    pub selection_ranges: Vec<(usize, usize)>,
    pub active_caret_index: usize,
    pub active_is_configuration: bool,
    pub active_is_markdown: bool,
    /// The active tab shows a picture.
    pub showing_image: bool,
    pub document_missing: bool,
    pub document_binary: bool,
    pub document_file_size: Option<u64>,
}

/// The shell's own state: whether the sidebar and the markdown preview
/// show.
#[derive(Clone, Copy, Debug, PartialEq, Eq, Structural)]
pub struct Shell {
    sidebar_visible: bool,
    markdown_preview_visible: bool,
}

impl Shell {
    pub closed spec fn sidebar(&self) -> bool {
        self.sidebar_visible
    }

    pub closed spec fn preview(&self) -> bool {
        self.markdown_preview_visible
    }

    /// The sidebar shows; the preview does not.
    pub fn new() -> (r: Shell)
        ensures
            r.sidebar(),
            !r.preview(),
    {
        Shell { sidebar_visible: true, markdown_preview_visible: false }
    }

    /// Show or hide the sidebar.
    pub fn toggle_sidebar(&mut self)
        ensures
            final(self).sidebar() == !old(self).sidebar(),
            final(self).preview() == old(self).preview(),
    {
        self.sidebar_visible = !self.sidebar_visible;
    }

    /// Show or hide the markdown preview.
    pub fn toggle_markdown_preview(&mut self)
        ensures
            final(self).preview() == !old(self).preview(),
            final(self).sidebar() == old(self).sidebar(),
    {
        self.markdown_preview_visible = !self.markdown_preview_visible;
    }

    /// Whether the sidebar shows.
    pub fn sidebar_visible(&self) -> (r: bool)
        ensures
            r == self.sidebar(),
    {
        self.sidebar_visible
    }

    /// Whether the markdown preview is switched on.
    pub fn markdown_preview_visible(&self) -> (r: bool)
        ensures
            r == self.preview(),
    {
        self.markdown_preview_visible
    }

    /// Whether the file tree shows: the sidebar is open and a workspace has
    /// a tree.
    pub fn shows_file_tree(&self, has_tree: bool) -> (r: bool)
        ensures
            r == (self.sidebar() && has_tree),
    {
        self.sidebar_visible && has_tree
    }

    /// Whether the markdown preview shows beside the editor: switched on,
    /// for an editable markdown document.
    pub fn shows_markdown_preview(&self, frame: &ShellFrame) -> (r: bool)
        ensures
            r == (frame.active_is_markdown && self.preview() && !frame.document_missing
                && !frame.document_binary),
    {
        frame.active_is_markdown && self.markdown_preview_visible && !frame.document_missing
            && !frame.document_binary
    }

    /// What the status bar shows for `frame`: the caret of the active caret
    /// (line 1, column 1 when there is none) with the total selected length,
    /// except on the settings or a picture.
    pub fn status_bar(&self, frame: &ShellFrame) -> (r: StatusBarData)
        requires
            total_len(frame.selection_ranges@) <= usize::MAX,
            forall|i: int| 0 <= i < frame.selection_ranges@.len() ==> #[trigger] frame.selection_ranges@[i].0
                <= frame.selection_ranges@[i].1,
        ensures
            r.sidebar_active == self.sidebar(),
            r.markdown_preview == (if frame.active_is_markdown {
                Some(self.preview())
            } else {
                None
            }),
            r.file_size == frame.document_file_size,
            r.cursor == (if frame.active_is_configuration || frame.showing_image {
                None
            } else {
                let caret = if frame.active_caret_index < frame.carets@.len() {
                    frame.carets@[frame.active_caret_index as int]
                } else {
                    (1usize, 1usize)
                };
                Some((caret.0, caret.1, total_len(frame.selection_ranges@) as usize))
            }),
    {
        let ranges = &frame.selection_ranges;
        let mut total: usize = 0;
        let mut i: usize = 0;
        while i < ranges.len()
            invariant
                i <= ranges.len(),
                ranges@ == frame.selection_ranges@,
                total_len(ranges@) <= usize::MAX,
                forall|k: int| 0 <= k < ranges@.len() ==> #[trigger] ranges@[k].0 <= ranges@[k].1,
                total == total_len(ranges@.take(i as int)),
            decreases ranges.len() - i,
        {
            proof {
                assert(ranges@.take(i + 1).drop_last() =~= ranges@.take(i as int));
                assert(ranges@.take(i + 1).last() == ranges@[i as int]);
                lemma_total_len_prefix(ranges@, i + 1);
            }
            let (start, end) = ranges[i];
            total = total + (end - start);
            i += 1;
        }
        proof {
            assert(ranges@.take(ranges.len() as int) =~= ranges@);
        }
        let caret = if frame.active_caret_index < frame.carets.len() {
            frame.carets[frame.active_caret_index]
        } else {
            (1, 1)
        };
        let cursor = if frame.active_is_configuration || frame.showing_image {
            None
        } else {
            Some((caret.0, caret.1, total))
        };
        StatusBarData {
            sidebar_active: self.sidebar_visible,
            cursor,
            markdown_preview: if frame.active_is_markdown {
                Some(self.markdown_preview_visible)
            } else {
                None
            },
            file_size: frame.document_file_size,
        }
    }
}

impl Default for Shell {
    fn default() -> (r: Shell)
        ensures
            r.sidebar(),
            !r.preview(),
    {
        Shell::new()
    }
}

/// The selected length of a prefix of well-ordered ranges is at most the
/// total.
proof fn lemma_total_len_prefix(ranges: Seq<(usize, usize)>, k: int)
    requires
        0 <= k <= ranges.len(),
        forall|i: int| 0 <= i < ranges.len() ==> #[trigger] ranges[i].0 <= ranges[i].1,
    ensures
        0 <= total_len(ranges.take(k)) <= total_len(ranges),
    decreases ranges.len() - k,
{
    if k < ranges.len() {
        lemma_total_len_prefix(ranges, k + 1);
        assert(ranges.take(k + 1).drop_last() =~= ranges.take(k));
        assert(ranges.take(k + 1).last() == ranges[k]);
        let t = ranges.take(k);
        assert forall|i: int| 0 <= i < t.len() implies #[trigger] t[i].0 <= t[i].1 by {
            assert(t[i] == ranges[i]);
        }
        lemma_total_len_nonnegative(t);
    } else {
        assert(ranges.take(k) =~= ranges);
        lemma_total_len_nonnegative(ranges);
    }
}

proof fn lemma_total_len_nonnegative(ranges: Seq<(usize, usize)>)
    requires
        forall|i: int| 0 <= i < ranges.len() ==> #[trigger] ranges[i].0 <= ranges[i].1,
    ensures
        total_len(ranges) >= 0,
    decreases ranges.len(),
{
    if ranges.len() > 0 {
        let d = ranges.drop_last();
        assert forall|i: int| 0 <= i < d.len() implies #[trigger] d[i].0 <= d[i].1 by {
            assert(d[i] == ranges[i]);
        }
        lemma_total_len_nonnegative(d);
        assert(ranges[ranges.len() - 1] == ranges.last());
    }
}

} // verus!
