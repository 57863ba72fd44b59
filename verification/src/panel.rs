//! The command palette's state: open or closed, the query, the selected row,
//! whether it lists commands or recent items, and the "Recently used"
//! commands; what it shows for that state, and how one frame of keyboard
//! and pointer input changes it.

use vstd::prelude::*;

use crate::commands::{
    command, effect_of, is_command_row, is_recent_row, items_from_ids, kind_of, listed, listed_ids,
    recent_items, registry_order, CommandEffect, CommandId, CommandKind, PaletteContext, PaletteItem,
    PaletteTarget, commands,
};
use crate::config::{capped, lemma_filter_members, Config};
use crate::rank::{
    entries, entry_of, is_ranking, rank_commands, scored, trimmed, trim_chars, Group, RankedCommand,
};

verus! {

/// How many commands the "Recently used" section remembers.
pub const MAX_RECENT_USED: usize = 5;

/// What the palette lists.
#[derive(Clone, Copy, Debug, PartialEq, Eq, Structural)]
pub enum CommandPanelMode {
    /// The registered commands.
    Root,
    /// The recent files and folders.
    RecentList,
}

/// Which key hints the footer shows.
#[derive(Clone, Copy, Debug, PartialEq, Eq, Structural)]
pub enum FooterHint {
    /// Navigate, Run, Close.
    Root,
    /// Navigate, Open, Back.
    RecentList,
}

/// One frame of input to an open palette. Row indices count across all
/// groups, in display order.
#[derive(Clone, Copy, Debug, PartialEq, Eq, Structural)]
pub struct PanelInput {
    /// The row the pointer moved onto, if any.
    pub hovered: Option<usize>,
    /// The row that was clicked, if any.
    pub clicked: Option<usize>,
    pub escape: bool,
    pub arrow_down: bool,
    pub arrow_up: bool,
    pub enter: bool,
    /// A click landed outside the palette's card.
    pub clicked_outside: bool,
}

/// What the application does after a frame of the palette.
#[derive(Clone, Debug)]
pub enum PanelOutcome {
    /// Nothing to run.
    Stay,
    /// Run a registered command's effect.
    Run(CommandEffect),
    /// Open a recent item, if it still exists as a file or folder.
    OpenRecent { path: String, is_dir: bool },
}

/// The command palette.
pub struct CommandPanel {
    open: bool,
    query: String,
    selected: usize,
    mode: CommandPanelMode,
    recent_used: Vec<CommandId>,
}

/// The "Recently used" list after running `target`: a registered command
/// moves to the front (once), at most five are kept; recent items are never
/// stored.
pub open spec fn remembered(ids: Seq<CommandId>, target: PaletteTarget) -> Seq<CommandId> {
    match target {
        PaletteTarget::Registered(id) => capped(
            seq![id] + ids.filter(|other: CommandId| other != id),
            MAX_RECENT_USED as nat,
        ),
        PaletteTarget::OpenRecent { .. } => ids,
    }
}

/// The selection after the rows are laid out: kept inside the `n` rows.
pub open spec fn clamped(selected: int, n: int) -> int {
    if n == 0 {
        0
    } else if selected >= n {
        n - 1
    } else {
        selected
    }
}

/// The selection after the arrow keys, over `n > 0` rows, wrapping around.
pub open spec fn navigated(selected: int, n: int, down: bool, up: bool) -> int {
    let after_down = if down {
        (selected + 1) % n
    } else {
        selected
    };
    if up {
        if after_down == 0 {
            n - 1
        } else {
            after_down - 1
        }
    } else {
        after_down
    }
}

/// `items` are the rows of the recent items of `config`, in order.
pub open spec fn are_recent_rows(items: Seq<PaletteItem>, config: Config) -> bool {
    &&& items.len() == config.recent().len()
    &&& forall|i: int| 0 <= i < items.len() ==> is_recent_row(#[trigger] items[i], config.recent()[i])
}

/// `items` are the rows of the commands `ids`, in order.
pub open spec fn are_command_rows(items: Seq<PaletteItem>, ids: Seq<CommandId>) -> bool {
    &&& items.len() == ids.len()
    &&& forall|i: int| 0 <= i < items.len() ==> is_command_row(#[trigger] items[i], ids[i])
}

/// `out` ranks `items` for `query` (see `rank_commands`).
pub open spec fn ranks(out: Seq<RankedCommand>, query: Seq<char>, items: Seq<PaletteItem>) -> bool {
    exists|perm: Seq<int>| is_ranking(entries(out), scored(query, items), perm)
}

/// A "Recently used" row: the command's row, pinned above every score,
/// without emphasis.
pub open spec fn is_recent_used_row(r: RankedCommand, id: CommandId) -> bool {
    &&& is_command_row(r.command, id)
    &&& r.score == i32::MAX
    &&& r.match_spans is None
}

/// A scored row that is not one of the commands `ids`.
pub open spec fn outside_ids(entry: crate::rank::Scored, ids: Seq<CommandId>) -> bool {
    !(entry.0.target matches PaletteTarget::Registered(id) && ids.contains(id))
}

/// A group header's title.
pub open spec fn titled(title: Option<&'static str>, text: Seq<char>) -> bool {
    title matches Some(t) && t@ == text
}

/// Two targets select the same thing.
pub open spec fn same_target(a: PaletteTarget, b: PaletteTarget) -> bool {
    match (a, b) {
        (PaletteTarget::Registered(x), PaletteTarget::Registered(y)) => x == y,
        (
            PaletteTarget::OpenRecent { path: p, is_dir: d },
            PaletteTarget::OpenRecent { path: q, is_dir: e },
        ) => p@ == q@ && d == e,
        _ => false,
    }
}

/// The rows of all groups, in display order.
pub open spec fn flat_rows(groups: Seq<Group>) -> Seq<RankedCommand>
    decreases groups.len(),
{
    if groups.len() == 0 {
        Seq::<RankedCommand>::empty()
    } else {
        flat_rows(groups.drop_last()) + groups.last().commands@
    }
}

/// A copy of a target.
pub fn copy_target(target: &PaletteTarget) -> (r: PaletteTarget)
    ensures
        same_target(r, *target),
{
    match target {
        PaletteTarget::Registered(id) => PaletteTarget::Registered(*id),
        PaletteTarget::OpenRecent { path, is_dir } => PaletteTarget::OpenRecent { path: path.clone(), is_dir: *is_dir },
    }
}

/// The targets of all rows of `groups`, in display order: what keyboard
/// navigation moves over.
pub fn flat_targets(groups: &Vec<Group>) -> (r: Vec<PaletteTarget>)
    ensures
        r@.len() == flat_rows(groups@).len(),
        forall|i: int| 0 <= i < r@.len() ==> same_target(#[trigger] r@[i], flat_rows(groups@)[i].command.target),
{
    let mut out: Vec<PaletteTarget> = Vec::new();
    let mut g: usize = 0;
    while g < groups.len()
        invariant
            g <= groups.len(),
            out@.len() == flat_rows(groups@.take(g as int)).len(),
            forall|i: int| 0 <= i < out@.len() ==> same_target(#[trigger] out@[i], flat_rows(groups@.take(g as int))[i].command.target),
        decreases groups.len() - g,
    {
        let ghost before = flat_rows(groups@.take(g as int));
        proof {
            assert(groups@.take(g + 1).drop_last() =~= groups@.take(g as int));
            assert(groups@.take(g + 1).last() == groups@[g as int]);
        }
        let rows = &groups[g].commands;
        let mut k: usize = 0;
        while k < rows.len()
            invariant
                k <= rows.len(),
                rows@ == groups@[g as int].commands@,
                out@.len() == before.len() + k,
                forall|i: int| 0 <= i < out@.len() ==> same_target(#[trigger] out@[i], (before + rows@)[i].command.target),
            decreases rows.len() - k,
        {
            out.push(copy_target(&rows[k].command.target));
            k += 1;
        }
        proof {
            assert(flat_rows(groups@.take(g + 1)) =~= before + rows@);
        }
        g += 1;
    }
    proof {
        assert(groups@.take(groups.len() as int) =~= groups@);
    }
    out
}

/// Whether `id` is one of `ids`.
fn contains_id(ids: &Vec<CommandId>, id: CommandId) -> (r: bool)
    ensures
        r == ids@.contains(id),
{
    let mut i: usize = 0;
    while i < ids.len()
        invariant
            i <= ids.len(),
            forall|k: int| 0 <= k < i ==> ids@[k] != id,
        decreases ids.len() - i,
    {
        if ids[i] == id {
            proof {
                assert(ids@[i as int] == id);
            }
            return true;
        }
        i += 1;
    }
    false
}

/// Whether one frame's input steps back from the recent list.
pub open spec fn steps_back(mode: CommandPanelMode, input: PanelInput) -> bool {
    input.escape && mode == CommandPanelMode::RecentList
}

/// Whether one frame's input closes the palette: Escape on the command
/// list, or a click outside the card.
pub open spec fn step_closes(mode: CommandPanelMode, input: PanelInput) -> bool {
    (input.escape && mode != CommandPanelMode::RecentList) || input.clicked_outside
}

/// The selection after one frame over `n` rows: clamped, moved by the
/// pointer, reset by stepping back, then moved by the arrow keys.
pub open spec fn step_selection(selected: int, n: int, mode: CommandPanelMode, input: PanelInput) -> int {
    let hovered = match input.hovered {
        Some(h) => h as int,
        None => clamped(selected, n),
    };
    let after_escape = if steps_back(mode, input) {
        0
    } else {
        hovered
    };
    if n > 0 {
        navigated(after_escape, n, input.arrow_down, input.arrow_up)
    } else {
        after_escape
    }
}

/// The row to run after one frame: the selected row on Enter, else the
/// clicked row.
pub open spec fn step_pending(targets: Seq<PaletteTarget>, selected: int, mode: CommandPanelMode, input: PanelInput) -> Option<PaletteTarget> {
    if targets.len() > 0 && input.enter {
        Some(targets[step_selection(selected, targets.len() as int, mode, input)])
    } else {
        match input.clicked {
            Some(c) => Some(targets[c as int]),
            None => None,
        }
    }
}

impl CommandPanel {
    pub closed spec fn is_open(&self) -> bool {
        self.open
    }

    pub closed spec fn query_view(&self) -> Seq<char> {
        self.query@
    }

    pub closed spec fn selection(&self) -> int {
        self.selected as int
    }

    pub closed spec fn mode_view(&self) -> CommandPanelMode {
        self.mode
    }

    pub closed spec fn recent_used_view(&self) -> Seq<CommandId> {
        self.recent_used@
    }

    /// A closed palette: empty query, first row, the command list; the
    /// "Recently used" list is kept.
    pub open spec fn is_closed_keeping(&self, recent_used: Seq<CommandId>) -> bool {
        &&& !self.is_open()
        &&& self.query_view() == Seq::<char>::empty()
        &&& self.selection() == 0
        &&& self.mode_view() == CommandPanelMode::Root
        &&& self.recent_used_view() == recent_used
    }

    /// A closed palette that remembers nothing.
    pub fn new() -> (r: CommandPanel)
        ensures
            r.is_closed_keeping(Seq::<CommandId>::empty()),
    {
        let r = CommandPanel {
            open: false,
            query: String::new(),
            selected: 0,
            mode: CommandPanelMode::Root,
            recent_used: Vec::new(),
        };
        proof {
            assert(r.recent_used@ =~= Seq::<CommandId>::empty());
        }
        r
    }

    /// Whether the palette is showing.
    pub fn open(&self) -> (r: bool)
        ensures
            r == self.is_open(),
    {
        self.open
    }

    /// The search text.
    pub fn query(&self) -> (r: &str)
        ensures
            r@ == self.query_view(),
    {
        self.query.as_str()
    }

    /// Replace the search text (the search field edits it).
    pub fn set_query(&mut self, query: String)
        ensures
            final(self).query_view() == query@,
            final(self).is_open() == old(self).is_open(),
            final(self).selection() == old(self).selection(),
            final(self).mode_view() == old(self).mode_view(),
            final(self).recent_used_view() == old(self).recent_used_view(),
    {
        self.query = query;
    }

    /// The selected row, counted across all groups.
    pub fn selected(&self) -> (r: usize)
        ensures
            r == self.selection(),
    {
        self.selected
    }

    /// What the palette lists.
    pub fn mode(&self) -> (r: CommandPanelMode)
        ensures
            r == self.mode_view(),
    {
        self.mode
    }

    /// The "Recently used" commands, most recent first.
    pub fn recent_used(&self) -> (r: &Vec<CommandId>)
        ensures
            r@ == self.recent_used_view(),
    {
        &self.recent_used
    }

    /// Close the palette and reset its query, selection and list.
    pub fn close(&mut self)
        ensures
            final(self).is_closed_keeping(old(self).recent_used_view()),
    {
        self.open = false;
        self.query = String::new();
        self.selected = 0;
        self.mode = CommandPanelMode::Root;
    }

    /// Open the palette fresh on the command list, or close it if open.
    pub fn toggle(&mut self)
        ensures
            old(self).is_open() ==> final(self).is_closed_keeping(old(self).recent_used_view()),
            !old(self).is_open() ==> {
                &&& final(self).is_open()
                &&& final(self).query_view() == Seq::<char>::empty()
                &&& final(self).selection() == 0
                &&& final(self).mode_view() == CommandPanelMode::Root
                &&& final(self).recent_used_view() == old(self).recent_used_view()
            },
    {
        if self.open {
            self.close();
            return;
        }
        self.open = true;
        self.query = String::new();
        self.selected = 0;
        self.mode = CommandPanelMode::Root;
    }

    /// Go back from the recent list to the command list, with an empty query
    /// and the first row selected.
    pub fn open_root_commands(&mut self)
        ensures
            final(self).is_open() == old(self).is_open(),
            final(self).query_view() == Seq::<char>::empty(),
            final(self).selection() == 0,
            final(self).mode_view() == CommandPanelMode::Root,
            final(self).recent_used_view() == old(self).recent_used_view(),
    {
        self.mode = CommandPanelMode::Root;
        self.query = String::new();
        self.selected = 0;
    }

    /// Whether the "Recently used" section shows: on the command list, with
    /// a blank query and something remembered.
    pub fn show_recent_used_section(&self) -> (r: bool)
        ensures
            r == (self.mode_view() == CommandPanelMode::Root && trimmed(self.query_view()).len() == 0
                && self.recent_used_view().len() > 0),
    {
        let is_root = match self.mode {
            CommandPanelMode::Root => true,
            CommandPanelMode::RecentList => false,
        };
        is_root && trim_chars(self.query.as_str()).len() == 0 && self.recent_used.len() > 0
    }

    /// The hint the search field shows.
    pub fn query_hint(&self) -> (r: &'static str)
        ensures
            r@ == (if self.mode_view() == CommandPanelMode::RecentList {
                "Select recent item"@
            } else {
                "Type a command"@
            }),
    {
        match self.mode {
            CommandPanelMode::RecentList => "Select recent item",
            CommandPanelMode::Root => "Type a command",
        }
    }

    /// The key hints of the footer.
    pub fn footer_hint(&self) -> (r: FooterHint)
        ensures
            r == (if self.mode_view() == CommandPanelMode::RecentList {
                FooterHint::RecentList
            } else {
                FooterHint::Root
            }),
    {
        match self.mode {
            CommandPanelMode::RecentList => FooterHint::RecentList,
            CommandPanelMode::Root => FooterHint::Root,
        }
    }

    /// Record `target` in the "Recently used" list. Recent items are never
    /// shown there, so only registered commands are stored.
    pub fn remember(&mut self, target: &PaletteTarget)
        ensures
            final(self).recent_used_view() == remembered(old(self).recent_used_view(), *target),
            final(self).is_open() == old(self).is_open(),
            final(self).query_view() == old(self).query_view(),
            final(self).selection() == old(self).selection(),
            final(self).mode_view() == old(self).mode_view(),
    {
        let id = match target {
            PaletteTarget::Registered(id) => *id,
            PaletteTarget::OpenRecent { .. } => return,
        };
        let ghost old_ids = self.recent_used@;
        let ghost pred = |other: CommandId| other != id;
        let mut kept: Vec<CommandId> = Vec::new();
        kept.push(id);
        let mut i: usize = 0;
        while i < self.recent_used.len()
            invariant
                i <= self.recent_used.len(),
                old_ids == self.recent_used@,
                pred == (|other: CommandId| other != id),
                kept@ == seq![id] + old_ids.take(i as int).filter(pred),
            decreases self.recent_used.len() - i,
        {
            proof {
                reveal(Seq::filter);
                assert(old_ids.take(i + 1).drop_last() =~= old_ids.take(i as int));
                assert(old_ids.take(i + 1).last() == old_ids[i as int]);
            }
            let other = self.recent_used[i];
            if other != id {
                kept.push(other);
            }
            i += 1;
        }
        proof {
            assert(old_ids.take(self.recent_used.len() as int) =~= old_ids);
        }
        let ghost full = kept@;
        if kept.len() > MAX_RECENT_USED {
            kept.truncate(MAX_RECENT_USED);
            proof {
                assert(kept@ =~= full.take(MAX_RECENT_USED as int));
            }
        }
        self.recent_used = kept;
    }

    /// The rows of the registered commands listed in `context`, in registry
    /// order.
    pub fn root_commands(&self, context: &PaletteContext) -> (r: Vec<PaletteItem>)
        ensures
            r@.len() == listed_ids(registry_order(), *context).len(),
            forall|i: int|
                0 <= i < r@.len() ==> is_command_row(#[trigger] r@[i], listed_ids(registry_order(), *context)[i]),
    {
        let all = commands();
        let ghost ids = registry_order();
        let ghost pred = |id: CommandId| listed(id, *context);
        let mut out: Vec<PaletteItem> = Vec::new();
        let mut i: usize = 0;
        while i < all.len()
            invariant
                i <= all.len(),
                all@.len() == ids.len(),
                ids == registry_order(),
                forall|k: int| 0 <= k < all@.len() ==> #[trigger] all@[k].id == ids[k] && all@[k].is_entry(),
                pred == (|id: CommandId| listed(id, *context)),
                out@.len() == ids.take(i as int).filter(pred).len(),
                forall|k: int| 0 <= k < out@.len() ==> is_command_row(#[trigger] out@[k], ids.take(i as int).filter(pred)[k]),
            decreases all.len() - i,
        {
            proof {
                reveal(Seq::filter);
                assert(ids.take(i + 1).drop_last() =~= ids.take(i as int));
                assert(ids.take(i + 1).last() == ids[i as int]);
                assert(all@[i as int].id == ids[i as int]);
            }
            if all[i].available(context) {
                out.push(all[i].palette_item());
            }
            i += 1;
        }
        proof {
            assert(ids.take(all.len() as int) =~= ids);
        }
        out
    }
    /// The groups the palette shows. The recent list is one group, "Recent
    /// items". The command list is one untitled group, or, when the
    /// "Recently used" section shows, that section (pinned, in remembered
    /// order) followed by "All commands" without the remembered ones.
    pub fn display_commands(&self, config: &Config, context: &PaletteContext) -> (r: Vec<Group>)
        ensures
            self.mode_view() == CommandPanelMode::RecentList ==> {
                &&& r@.len() == 1
                &&& titled(r@[0].title, "Recent items"@)
                &&& exists|items: Seq<PaletteItem>| are_recent_rows(items, *config) && ranks(r@[0].commands@, self.query_view(), items)
            },
            self.mode_view() == CommandPanelMode::Root && !(trimmed(self.query_view()).len() == 0
                && self.recent_used_view().len() > 0) ==> {
                &&& r@.len() == 1
                &&& r@[0].title is None
                &&& exists|items: Seq<PaletteItem>|
                    are_command_rows(items, listed_ids(registry_order(), *context)) && ranks(
                        r@[0].commands@,
                        self.query_view(),
                        items,
                    )
            },
            self.mode_view() == CommandPanelMode::Root && trimmed(self.query_view()).len() == 0
                && self.recent_used_view().len() > 0 ==> {
                &&& r@.len() == 2
                &&& titled(r@[0].title, "Recently used"@)
                &&& titled(r@[1].title, "All commands"@)
                &&& r@[0].commands@.len() == listed_ids(self.recent_used_view(), *context).len()
                &&& forall|i: int|
                    0 <= i < r@[0].commands@.len() ==> is_recent_used_row(
                        #[trigger] r@[0].commands@[i],
                        listed_ids(self.recent_used_view(), *context)[i],
                    )
                &&& exists|items: Seq<PaletteItem>, ranked: Seq<RankedCommand>|
                    are_command_rows(items, listed_ids(registry_order(), *context)) && ranks(
                        ranked,
                        self.query_view(),
                        items,
                    ) && entries(r@[1].commands@) == entries(ranked).filter(
                        |e: crate::rank::Scored| outside_ids(e, self.recent_used_view()),
                    )
            },
    {
        match self.mode {
            CommandPanelMode::RecentList => {
                let items = recent_items(config);
                let ghost item_rows = items@;
                let ranked = rank_commands(self.query.as_str(), items);
                let mut groups: Vec<Group> = Vec::new();
                groups.push(Group { title: Some("Recent items"), commands: ranked });
                proof {
                    assert(are_recent_rows(item_rows, *config));
                }
                return groups;
            },
            CommandPanelMode::Root => {},
        }
        let items = self.root_commands(context);
        let ghost item_rows = items@;
        let mut ranked = rank_commands(self.query.as_str(), items);
        proof {
            assert(are_command_rows(item_rows, listed_ids(registry_order(), *context)));
        }
        if !self.show_recent_used_section() {
            let mut groups: Vec<Group> = Vec::new();
            groups.push(Group { title: None, commands: ranked });
            return groups;
        }
        let pinned = items_from_ids(&self.recent_used, context);
        let mut recent: Vec<RankedCommand> = Vec::new();
        let mut i: usize = 0;
        let mut rest = pinned;
        let pinned_count: usize = rest.len();
        let ghost pinned_rows = rest@;
        let ghost ids = listed_ids(self.recent_used@, *context);
        while rest.len() > 0
            invariant
                i <= pinned_rows.len(),
                pinned_rows.len() == pinned_count,
                pinned_rows.len() == i + rest.len(),
                pinned_rows.len() == ids.len(),
                forall|k: int| 0 <= k < pinned_rows.len() ==> is_command_row(#[trigger] pinned_rows[k], ids[k]),
                rest@ == pinned_rows.skip(i as int),
                recent@.len() == i,
                forall|k: int| 0 <= k < i ==> is_recent_used_row(#[trigger] recent@[k], ids[k]),
            decreases rest.len(),
        {
            let command = rest.remove(0);
            proof {
                assert(pinned_rows.skip(i as int).remove(0) =~= pinned_rows.skip(i + 1));
                assert(command == pinned_rows[i as int]);
            }
            recent.push(RankedCommand { command, score: i32::MAX, match_spans: None });
            i += 1;
        }
        let ghost ranked_rows = ranked@;
        let ghost pred = |e: crate::rank::Scored| outside_ids(e, self.recent_used_view());
        let mut all: Vec<RankedCommand> = Vec::new();
        let mut taken: usize = 0;
        let total: usize = ranked.len();
        proof {
            assert(ranked_rows.skip(0) =~= ranked_rows);
            assert(entries(ranked_rows).take(0).filter(pred) =~= Seq::<crate::rank::Scored>::empty()) by {
                reveal(Seq::filter);
            }
        }
        while ranked.len() > 0
            invariant
                taken <= ranked_rows.len(),
                ranked_rows.len() == total,
                ranked_rows.len() == taken + ranked.len(),
                ranked@ == ranked_rows.skip(taken as int),
                pred == (|e: crate::rank::Scored| outside_ids(e, self.recent_used_view())),
                entries(all@) == entries(ranked_rows).take(taken as int).filter(pred),
            decreases ranked.len(),
        {
            let row = ranked.remove(0);
            proof {
                reveal(Seq::filter);
                assert(ranked_rows.skip(taken as int).remove(0) =~= ranked_rows.skip(taken + 1));
                assert(row == ranked_rows[taken as int]);
                let e = entries(ranked_rows);
                assert(e.take(taken + 1).drop_last() =~= e.take(taken as int));
                assert(e.take(taken + 1).last() == entry_of(row));
            }
            let skip = match &row.command.target {
                PaletteTarget::Registered(id) => contains_id(&self.recent_used, *id),
                PaletteTarget::OpenRecent { .. } => false,
            };
            if !skip {
                let ghost before = all@;
                all.push(row);
                proof {
                    assert(entries(all@) =~= entries(before).push(entry_of(row)));
                }
            }
            taken += 1;
        }
        proof {
            assert(entries(ranked_rows).take(taken as int) =~= entries(ranked_rows));
        }
        let ghost recent_rows = recent@;
        let ghost all_rows = all@;
        let mut groups: Vec<Group> = Vec::new();
        groups.push(Group { title: Some("Recently used"), commands: recent });
        groups.push(Group { title: Some("All commands"), commands: all });
        proof {
            assert(groups@[0].commands@ == recent_rows);
            assert(groups@[1].commands@ == all_rows);
            assert(ranks(ranked_rows, self.query_view(), item_rows));
        }
        groups
    }

    /// Apply one frame of input to the open palette over the rows with
    /// `targets` (in display order), and say what to run. The selection is
    /// kept on a row, follows the pointer, wraps with the arrow keys; Escape
    /// steps back from the recent list or closes; a click outside closes;
    /// Enter or a click picks a row: "Open Recently" switches to the recent
    /// list, other commands run and close, recent items open and close.
    /// Picked commands are remembered as recently used.
    pub fn step(&mut self, targets: &Vec<PaletteTarget>, input: &PanelInput) -> (out: PanelOutcome)
        requires
            input.hovered matches Some(h) ==> h < targets.len(),
            input.clicked matches Some(c) ==> c < targets.len(),
        ensures
            !old(self).is_open() ==> {
                &&& out is Stay
                &&& final(self).is_closed_keeping(old(self).recent_used_view()) || (final(self).is_open()
                    == old(self).is_open() && final(self).query_view() == old(self).query_view()
                    && final(self).selection() == old(self).selection() && final(self).mode_view()
                    == old(self).mode_view() && final(self).recent_used_view() == old(self).recent_used_view())
            },
            old(self).is_open() && step_closes(old(self).mode_view(), *input) ==> {
                &&& out is Stay
                &&& final(self).is_closed_keeping(old(self).recent_used_view())
            },
            old(self).is_open() && !step_closes(old(self).mode_view(), *input) ==> match step_pending(
                targets@,
                old(self).selection(),
                old(self).mode_view(),
                *input,
            ) {
                None => {
                    &&& out is Stay
                    &&& final(self).is_open()
                    &&& final(self).selection() == step_selection(
                        old(self).selection(),
                        targets.len() as int,
                        old(self).mode_view(),
                        *input,
                    )
                    &&& final(self).query_view() == (if steps_back(old(self).mode_view(), *input) {
                        Seq::<char>::empty()
                    } else {
                        old(self).query_view()
                    })
                    &&& final(self).mode_view() == (if steps_back(old(self).mode_view(), *input) {
                        CommandPanelMode::Root
                    } else {
                        old(self).mode_view()
                    })
                    &&& final(self).recent_used_view() == old(self).recent_used_view()
                },
                Some(PaletteTarget::Registered(id)) => if kind_of(id) == CommandKind::ShowRecents {
                    &&& out is Stay
                    &&& final(self).is_open()
                    &&& final(self).query_view() == Seq::<char>::empty()
                    &&& final(self).selection() == 0
                    &&& final(self).mode_view() == CommandPanelMode::RecentList
                    &&& final(self).recent_used_view() == remembered(
                        old(self).recent_used_view(),
                        PaletteTarget::Registered(id),
                    )
                } else {
                    &&& out == PanelOutcome::Run(effect_of(id))
                    &&& final(self).is_closed_keeping(
                        remembered(old(self).recent_used_view(), PaletteTarget::Registered(id)),
                    )
                },
                Some(PaletteTarget::OpenRecent { path, is_dir }) => {
                    &&& out matches PanelOutcome::OpenRecent { path: p, is_dir: d } && p@ == path@ && d
                        == is_dir
                    &&& final(self).is_closed_keeping(old(self).recent_used_view())
                },
            },
    {
        if !self.open {
            return PanelOutcome::Stay;
        }
        let ghost old_mode = self.mode;
        let ghost old_selected = self.selected as int;
        let n = targets.len();
        if n == 0 {
            self.selected = 0;
        } else if self.selected >= n {
            self.selected = n - 1;
        }
        let mut pending: Option<PaletteTarget> = None;
        match input.clicked {
            Some(c) => {
                pending = Some(copy_target(&targets[c]));
            },
            None => {},
        }
        match input.hovered {
            Some(h) => {
                self.selected = h;
            },
            None => {},
        }
        let mut should_close = false;
        if input.escape {
            match self.mode {
                CommandPanelMode::RecentList => self.open_root_commands(),
                CommandPanelMode::Root => {
                    should_close = true;
                },
            }
        }
        if n > 0 {
            if input.arrow_down {
                self.selected = (self.selected + 1) % n;
            }
            if input.arrow_up {
                self.selected = if self.selected == 0 {
                    n - 1
                } else {
                    self.selected - 1
                };
            }
            if input.enter {
                pending = Some(copy_target(&targets[self.selected]));
            }
        }
        if input.clicked_outside {
            should_close = true;
        }
        if should_close {
            self.close();
            return PanelOutcome::Stay;
        }
        match pending {
            None => PanelOutcome::Stay,
            Some(target) => match target {
                PaletteTarget::Registered(id) => {
                    let c = command(id);
                    self.remember(&target);
                    match c.kind {
                        CommandKind::ShowRecents => {
                            self.mode = CommandPanelMode::RecentList;
                            self.query = String::new();
                            self.selected = 0;
                            PanelOutcome::Stay
                        },
                        CommandKind::RunAndClose => {
                            self.close();
                            PanelOutcome::Run(c.effect)
                        },
                    }
                },
                PaletteTarget::OpenRecent { path, is_dir } => {
                    self.close();
                    PanelOutcome::OpenRecent { path, is_dir }
                },
            },
        }
    }
}

impl Default for CommandPanel {
    fn default() -> (r: CommandPanel)
        ensures
            r.is_closed_keeping(Seq::<CommandId>::empty()),
    {
        CommandPanel::new()
    }
}

/// Filtering keeps entries in order, so it keeps them distinct.
proof fn lemma_filter_no_duplicates<A>(s: Seq<A>, p: spec_fn(A) -> bool)
    requires
        s.no_duplicates(),
    ensures
        s.filter(p).no_duplicates(),
    decreases s.len(),
{
    reveal(Seq::filter);
    if s.len() > 0 {
        let front = s.drop_last();
        assert(front.no_duplicates()) by {
            assert forall|i: int, j: int| 0 <= i < front.len() && 0 <= j < front.len() && i != j implies front[i]
                != front[j] by {
                assert(front[i] == s[i] && front[j] == s[j]);
            }
        }
        lemma_filter_no_duplicates(front, p);
        let rest = front.filter(p);
        if p(s.last()) {
            let out = rest.push(s.last());
            assert forall|i: int, j: int| 0 <= i < out.len() && 0 <= j < out.len() && i != j implies out[i]
                != out[j] by {
                if i == out.len() - 1 || j == out.len() - 1 {
                    let k = if i == out.len() - 1 { j } else { i };
                    lemma_filter_members(front, p, k);
                    let x = rest[k];
                    let w = choose|w: int| 0 <= w < front.len() && front[w] == x;
                    assert(s[w] == x);
                    assert(s[s.len() - 1] == s.last());
                } else {
                    assert(out[i] == rest[i] && out[j] == rest[j]);
                }
            }
        }
    }
}

/// Running a command puts it first in "Recently used", once, with at most
/// five entries and no repeats; opening a recent item leaves the list as it
/// was.
pub proof fn law_recently_used_shape(ids: Seq<CommandId>, id: CommandId, path: String, is_dir: bool)
    requires
        ids.no_duplicates(),
    ensures
        remembered(ids, PaletteTarget::Registered(id)).len() > 0,
        remembered(ids, PaletteTarget::Registered(id))[0] == id,
        remembered(ids, PaletteTarget::Registered(id)).len() <= MAX_RECENT_USED,
        remembered(ids, PaletteTarget::Registered(id)).no_duplicates(),
        forall|other: CommandId|
            ids.contains(other) && (ids.filter(|x: CommandId| x != id).len() < MAX_RECENT_USED) ==> #[trigger] remembered(
                ids,
                PaletteTarget::Registered(id),
            ).contains(other),
        remembered(ids, PaletteTarget::OpenRecent { path, is_dir }) == ids,
{
    let p = |x: CommandId| x != id;
    let rest = ids.filter(p);
    let full = seq![id] + rest;
    let r = remembered(ids, PaletteTarget::Registered(id));
    lemma_filter_no_duplicates(ids, p);
    assert(full.no_duplicates()) by {
        assert forall|i: int, j: int| 0 <= i < full.len() && 0 <= j < full.len() && i != j implies full[i]
            != full[j] by {
            if i == 0 || j == 0 {
                let k = if i == 0 { j } else { i };
                lemma_filter_members(ids, p, k - 1);
                assert(full[k] == rest[k - 1]);
            } else {
                assert(full[i] == rest[i - 1] && full[j] == rest[j - 1]);
            }
        }
    }
    assert(r.no_duplicates()) by {
        assert forall|i: int, j: int| 0 <= i < r.len() && 0 <= j < r.len() && i != j implies r[i] != r[j] by {
            assert(r[i] == full[i] && r[j] == full[j]);
        }
    }
    assert forall|other: CommandId|
        ids.contains(other) && (ids.filter(|x: CommandId| x != id).len() < MAX_RECENT_USED) implies #[trigger] r.contains(
        other,
    ) by {
        assert(ids.filter(|x: CommandId| x != id) == rest);
        if other == id {
            assert(r[0] == id);
        } else {
            let k = choose|k: int| 0 <= k < ids.len() && ids[k] == other;
            ids.lemma_filter_contains(p, k);
            let w = choose|w: int| 0 <= w < rest.len() && rest[w] == other;
            assert(r == full);
            assert(r[w + 1] == other);
        }
    }
}

} // verus!
