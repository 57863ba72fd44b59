//! The editor's remembered state: the recent files and folders, the last file
//! open in each workspace, and the settings groups with their defaults.
//! Paths compare the way `Path` does: component by component.

use vstd::prelude::*;

use crate::paths::{components, path_starts_with, paths_equal, starts_with_components};
use crate::text::to_owned_string;
use crate::workbench::{SessionView, WorkspaceSession};

verus! {

/// How many recent files and folders are remembered.
pub const MAX_RECENT_ITEMS: usize = 10;

/// How many workspaces remember their last open file.
pub const MAX_WORKSPACE_FILE_STATES: usize = 50;

/// A recently opened file or folder.
#[derive(Clone, Debug)]
pub struct RecentItem {
    pub path: String,
    pub is_dir: bool,
}

impl View for RecentItem {
    type V = (Seq<char>, bool);

    open spec fn view(&self) -> (Seq<char>, bool) {
        (self.path@, self.is_dir)
    }
}

/// The file that was last open in a workspace.
#[derive(Clone, Debug)]
pub struct WorkspaceFileState {
    pub workspace_path: String,
    pub file_path: String,
}

impl View for WorkspaceFileState {
    type V = (Seq<char>, Seq<char>);

    open spec fn view(&self) -> (Seq<char>, Seq<char>) {
        (self.workspace_path@, self.file_path@)
    }
}

/// Two paths name the same place: they have the same components.
pub open spec fn same_path(a: Seq<char>, b: Seq<char>) -> bool {
    components(a) == components(b)
}

/// The views of a list of recent items.
pub open spec fn recent_views(items: Seq<RecentItem>) -> Seq<(Seq<char>, bool)> {
    items.map_values(|item: RecentItem| item@)
}

/// The views of a list of workspace file states.
pub open spec fn state_views(states: Seq<WorkspaceFileState>) -> Seq<(Seq<char>, Seq<char>)> {
    states.map_values(|state: WorkspaceFileState| state@)
}

/// `s` cut to at most `max` entries.
pub open spec fn capped<A>(s: Seq<A>, max: nat) -> Seq<A> {
    if s.len() <= max {
        s
    } else {
        s.take(max as int)
    }
}

/// The entries of `items` whose path is not `path`, in order.
pub open spec fn other_paths(items: Seq<(Seq<char>, bool)>, path: Seq<char>) -> Seq<(Seq<char>, bool)> {
    items.filter(|entry: (Seq<char>, bool)| !same_path(entry.0, path))
}

/// The recent list after `item` is opened: `item` first, any older entry for
/// the same path dropped, at most `max` entries.
pub open spec fn with_recent(items: Seq<(Seq<char>, bool)>, item: (Seq<char>, bool), max: nat) -> Seq<(Seq<char>, bool)> {
    capped(seq![item] + other_paths(items, item.0), max)
}

/// The states of `states` for workspaces other than `workspace`, in order.
pub open spec fn other_workspaces(states: Seq<(Seq<char>, Seq<char>)>, workspace: Seq<char>) -> Seq<(Seq<char>, Seq<char>)> {
    states.filter(|entry: (Seq<char>, Seq<char>)| !same_path(entry.0, workspace))
}

/// The workspace states after `state` is recorded: `state` first, any older
/// state of the same workspace dropped, at most `max` entries.
pub open spec fn with_workspace_state(states: Seq<(Seq<char>, Seq<char>)>, state: (Seq<char>, Seq<char>), max: nat) -> Seq<(Seq<char>, Seq<char>)> {
    capped(seq![state] + other_workspaces(states, state.0), max)
}

/// `path` is a folder in the recent list.
pub open spec fn is_recent_dir(items: Seq<(Seq<char>, bool)>, path: Seq<char>) -> bool {
    exists|i: int| 0 <= i < items.len() && #[trigger] items[i].1 && same_path(items[i].0, path)
}

/// The workspace states whose workspace is a recent folder, in order.
pub open spec fn kept_states(states: Seq<(Seq<char>, Seq<char>)>, items: Seq<(Seq<char>, bool)>) -> Seq<(Seq<char>, Seq<char>)> {
    states.filter(|entry: (Seq<char>, Seq<char>)| is_recent_dir(items, entry.0))
}

/// The file recorded for `workspace`: that of the first state for it.
pub open spec fn last_file(states: Seq<(Seq<char>, Seq<char>)>, workspace: Seq<char>) -> Option<Seq<char>>
    decreases states.len(),
{
    if states.len() == 0 {
        None
    } else if same_path(states[0].0, workspace) {
        Some(states[0].1)
    } else {
        last_file(states.drop_first(), workspace)
    }
}

/// The views of a list of workspace sessions.
pub open spec fn session_views(sessions: Seq<WorkspaceSession>) -> Seq<SessionView> {
    sessions.map_values(|s: WorkspaceSession| s@)
}

/// `i` is the first session of `views` for `workspace`.
pub open spec fn session_at(views: Seq<SessionView>, workspace: Seq<char>, i: int) -> bool {
    &&& 0 <= i < views.len()
    &&& same_path(views[i].0, workspace)
    &&& forall|j: int| 0 <= j < i ==> !same_path(#[trigger] views[j].0, workspace)
}

/// The session remembered for `workspace`: the first one for it.
pub open spec fn session_of(views: Seq<SessionView>, workspace: Seq<char>) -> Option<SessionView> {
    if exists|i: int| session_at(views, workspace, i) {
        Some(views[choose|i: int| session_at(views, workspace, i)])
    } else {
        None
    }
}

/// The sessions after `session` is recorded: it comes first, and the
/// session its workspace had before is dropped.
pub open spec fn with_session(views: Seq<SessionView>, session: SessionView) -> Seq<SessionView> {
    let rest = if exists|i: int| session_at(views, session.0, i) {
        views.remove(choose|i: int| session_at(views, session.0, i))
    } else {
        views
    };
    seq![session] + rest
}

/// There is one first session per workspace.
proof fn lemma_session_at_unique(views: Seq<SessionView>, workspace: Seq<char>, i: int, k: int)
    requires
        session_at(views, workspace, i),
        session_at(views, workspace, k),
    ensures
        i == k,
{
    if i < k {
        assert(!same_path(views[i].0, workspace));
    } else if k < i {
        assert(!same_path(views[k].0, workspace));
    }
}

/// Some entry of `views` names `workspace`, so a first one does.
proof fn lemma_first_session(views: Seq<SessionView>, workspace: Seq<char>, j: int)
    requires
        0 <= j < views.len(),
        same_path(views[j].0, workspace),
    ensures
        exists|i: int| session_at(views, workspace, i),
    decreases j,
{
    if exists|k: int| 0 <= k < j && same_path(#[trigger] views[k].0, workspace) {
        let k = choose|k: int| 0 <= k < j && same_path(#[trigger] views[k].0, workspace);
        lemma_first_session(views, workspace, k);
    } else {
        assert(session_at(views, workspace, j));
    }
}

/// Reopening a workspace finds the session last recorded for it.
pub proof fn law_session_reads_back(views: Seq<SessionView>, session: SessionView)
    ensures
        session_of(with_session(views, session), session.0) == Some(session),
{
    let after = with_session(views, session);
    assert(after[0] == session);
    assert(session_at(after, session.0, 0));
    let k = choose|k: int| session_at(after, session.0, k);
    lemma_session_at_unique(after, session.0, 0, k);
}

/// Recording a session leaves what every other workspace remembers as it
/// was.
pub proof fn law_other_sessions_kept(views: Seq<SessionView>, session: SessionView, workspace: Seq<char>)
    requires
        !same_path(workspace, session.0),
    ensures
        session_of(with_session(views, session), workspace) == session_of(views, workspace),
{
    let after = with_session(views, session);
    let removed = exists|i: int| session_at(views, session.0, i);
    let c = choose|i: int| session_at(views, session.0, i);
    // `after[1 + m]` is `views[src(m)]`.
    let src = |m: int| if removed && m >= c { m + 1 } else { m };
    if exists|i: int| session_at(views, workspace, i) {
        let i = choose|i: int| session_at(views, workspace, i);
        if removed {
            assert(c != i);
        }
        let at = if removed && c < i { i } else { i + 1 };
        assert(after[at] == views[i]);
        assert forall|j: int| 0 <= j < at implies !same_path(#[trigger] after[j].0, workspace) by {
            if j > 0 {
                assert(after[j] == views[src(j - 1)]);
            }
        }
        assert(session_at(after, workspace, at));
        let k = choose|k: int| session_at(after, workspace, k);
        lemma_session_at_unique(after, workspace, at, k);
    } else {
        if exists|k: int| session_at(after, workspace, k) {
            let k = choose|k: int| session_at(after, workspace, k);
            assert(k > 0);
            assert(after[k] == views[src(k - 1)]);
            lemma_first_session(views, workspace, src(k - 1));
        }
    }
}

/// No two entries of `items` name the same path.
pub open spec fn distinct_paths(items: Seq<(Seq<char>, bool)>) -> bool {
    forall|i: int, j: int|
        0 <= i < j < items.len() ==> !same_path(#[trigger] items[i].0, #[trigger] items[j].0)
}

/// One step of a filter built left to right.
proof fn lemma_filter_take_step<A>(s: Seq<A>, p: spec_fn(A) -> bool, i: int)
    requires
        0 <= i < s.len(),
    ensures
        s.take(i + 1).filter(p) == (if p(s[i]) {
            s.take(i).filter(p).push(s[i])
        } else {
            s.take(i).filter(p)
        }),
{
    reveal(Seq::filter);
    assert(s.take(i + 1).drop_last() =~= s.take(i));
    assert(s.take(i + 1).last() == s[i]);
}

/// Every entry of a filtered sequence satisfies the predicate and comes
/// from the sequence.
pub(crate) proof fn lemma_filter_members<A>(s: Seq<A>, p: spec_fn(A) -> bool, k: int)
    requires
        0 <= k < s.filter(p).len(),
    ensures
        p(s.filter(p)[k]),
        s.contains(s.filter(p)[k]),
    decreases s.len(),
{
    reveal(Seq::filter);
    if s.len() > 0 {
        let rest = s.drop_last().filter(p);
        if k < rest.len() {
            lemma_filter_members(s.drop_last(), p, k);
            let x = rest[k];
            let j = choose|j: int| 0 <= j < s.drop_last().len() && s.drop_last()[j] == x;
            assert(s[j] == x);
        } else {
            assert(s[s.len() - 1] == s.last());
        }
    }
}

/// Filtering keeps entries in their order, so it keeps paths distinct.
proof fn lemma_filter_keeps_distinct(items: Seq<(Seq<char>, bool)>, p: spec_fn((Seq<char>, bool)) -> bool)
    requires
        distinct_paths(items),
    ensures
        distinct_paths(items.filter(p)),
    decreases items.len(),
{
    reveal(Seq::filter);
    if items.len() > 0 {
        let front = items.drop_last();
        assert(distinct_paths(front)) by {
            assert forall|i: int, j: int| 0 <= i < j < front.len() implies !same_path(
                #[trigger] front[i].0,
                #[trigger] front[j].0,
            ) by {
                assert(front[i] == items[i] && front[j] == items[j]);
            }
        }
        lemma_filter_keeps_distinct(front, p);
        let rest = front.filter(p);
        if p(items.last()) {
            let out = rest.push(items.last());
            assert forall|i: int, j: int| 0 <= i < j < out.len() implies !same_path(
                #[trigger] out[i].0,
                #[trigger] out[j].0,
            ) by {
                if j == out.len() - 1 {
                    lemma_filter_members(front, p, i);
                    let x = rest[i];
                    let k = choose|k: int| 0 <= k < front.len() && front[k] == x;
                    assert(items[k] == x);
                    assert(items[items.len() - 1] == items.last());
                } else {
                    assert(out[i] == rest[i] && out[j] == rest[j]);
                }
            }
        }
    }
}

/// A copy of a recent item.
fn copy_recent(item: &RecentItem) -> (r: RecentItem)
    ensures
        r@ == item@,
{
    RecentItem { path: item.path.clone(), is_dir: item.is_dir }
}

/// A copy of a workspace file state.
fn copy_state(state: &WorkspaceFileState) -> (r: WorkspaceFileState)
    ensures
        r@ == state@,
{
    WorkspaceFileState {
        workspace_path: state.workspace_path.clone(),
        file_path: state.file_path.clone(),
    }
}

/// Put `item` at the front of `items`, dropping an older entry for the same
/// path, and keep at most `max` entries.
pub fn insert_recent(items: &mut Vec<RecentItem>, item: RecentItem, max: usize)
    ensures
        recent_views(final(items)@) == with_recent(recent_views(old(items)@), item@, max as nat),
{
    let ghost old_views = recent_views(items@);
    let ghost key = item.path@;
    let ghost pred = |entry: (Seq<char>, bool)| !same_path(entry.0, key);
    let mut out: Vec<RecentItem> = Vec::new();
    let mut i: usize = 0;
    while i < items.len()
        invariant
            i <= items.len(),
            old_views == recent_views(items@),
            key == item.path@,
            pred == (|entry: (Seq<char>, bool)| !same_path(entry.0, key)),
            recent_views(out@) == old_views.take(i as int).filter(pred),
        decreases items.len() - i,
    {
        proof {
            lemma_filter_take_step(old_views, pred, i as int);
        }
        if !paths_equal(items[i].path.as_str(), item.path.as_str()) {
            let copy = copy_recent(&items[i]);
            let ghost before = out@;
            out.push(copy);
            proof {
                assert(recent_views(out@) =~= recent_views(before).push(copy@));
            }
        }
        i += 1;
    }
    proof {
        assert(old_views.take(items.len() as int) =~= old_views);
    }
    let ghost filtered = recent_views(out@);
    let mut result: Vec<RecentItem> = Vec::new();
    result.push(item);
    result.append(&mut out);
    proof {
        assert(recent_views(result@) =~= seq![item@] + filtered);
    }
    let ghost full = recent_views(result@);
    if result.len() > max {
        result.truncate(max);
        proof {
            assert(recent_views(result@) =~= full.take(max as int));
        }
    }
    *items = result;
}

/// Put `state` at the front of `states`, dropping an older state of the same
/// workspace, and keep at most `max` entries.
pub fn insert_workspace_state(states: &mut Vec<WorkspaceFileState>, state: WorkspaceFileState, max: usize)
    ensures
        state_views(final(states)@) == with_workspace_state(state_views(old(states)@), state@, max as nat),
{
    let ghost old_views = state_views(states@);
    let ghost key = state.workspace_path@;
    let ghost pred = |entry: (Seq<char>, Seq<char>)| !same_path(entry.0, key);
    let mut out: Vec<WorkspaceFileState> = Vec::new();
    let mut i: usize = 0;
    while i < states.len()
        invariant
            i <= states.len(),
            old_views == state_views(states@),
            key == state.workspace_path@,
            pred == (|entry: (Seq<char>, Seq<char>)| !same_path(entry.0, key)),
            state_views(out@) == old_views.take(i as int).filter(pred),
        decreases states.len() - i,
    {
        proof {
            lemma_filter_take_step(old_views, pred, i as int);
        }
        if !paths_equal(states[i].workspace_path.as_str(), state.workspace_path.as_str()) {
            let copy = copy_state(&states[i]);
            let ghost before = out@;
            out.push(copy);
            proof {
                assert(state_views(out@) =~= state_views(before).push(copy@));
            }
        }
        i += 1;
    }
    proof {
        assert(old_views.take(states.len() as int) =~= old_views);
    }
    let ghost filtered = state_views(out@);
    let mut result: Vec<WorkspaceFileState> = Vec::new();
    result.push(state);
    result.append(&mut out);
    proof {
        assert(state_views(result@) =~= seq![state@] + filtered);
    }
    let ghost full = state_views(result@);
    if result.len() > max {
        result.truncate(max);
        proof {
            assert(state_views(result@) =~= full.take(max as int));
        }
    }
    *states = result;
}

/// Whether `path` is a folder of `items`.
fn has_recent_dir(items: &Vec<RecentItem>, path: &str) -> (r: bool)
    ensures
        r == is_recent_dir(recent_views(items@), path@),
{
    let ghost views = recent_views(items@);
    let mut i: usize = 0;
    while i < items.len()
        invariant
            i <= items.len(),
            views == recent_views(items@),
            forall|k: int| 0 <= k < i ==> !(#[trigger] views[k].1 && same_path(views[k].0, path@)),
        decreases items.len() - i,
    {
        if items[i].is_dir && paths_equal(items[i].path.as_str(), path) {
            proof {
                assert(views[i as int].1 && same_path(views[i as int].0, path@));
            }
            return true;
        }
        i += 1;
    }
    false
}

/// The recent files and folders and the last file of each workspace.
#[derive(Clone, Debug)]
pub struct Config {
    pub recent_items: Vec<RecentItem>,
    workspace_file_states: Vec<WorkspaceFileState>,
    workspace_sessions: Vec<WorkspaceSession>,
}

impl Config {
    /// The recent items as views.
    pub closed spec fn recent(&self) -> Seq<(Seq<char>, bool)> {
        recent_views(self.recent_items@)
    }

    /// The workspace file states as views.
    pub closed spec fn states(&self) -> Seq<(Seq<char>, Seq<char>)> {
        state_views(self.workspace_file_states@)
    }

    /// The workspace sessions as views.
    pub closed spec fn sessions(&self) -> Seq<SessionView> {
        session_views(self.workspace_sessions@)
    }

    /// The recent files and folders, most recent first.
    pub fn recent_items(&self) -> (r: &Vec<RecentItem>)
        ensures
            recent_views(r@) == self.recent(),
    {
        &self.recent_items
    }

    /// Every remembered workspace is a recent folder.
    pub open spec fn states_follow_recent_dirs(&self) -> bool {
        forall|i: int|
            0 <= i < self.states().len() ==> is_recent_dir(self.recent(), #[trigger] self.states()[i].0)
    }

    /// A store holding what was read back from disk.
    pub fn new(
        recent_items: Vec<RecentItem>,
        workspace_file_states: Vec<WorkspaceFileState>,
        workspace_sessions: Vec<WorkspaceSession>,
    ) -> (r: Config)
        ensures
            r.recent() == recent_views(recent_items@),
            r.states() == state_views(workspace_file_states@),
            r.sessions() == session_views(workspace_sessions@),
    {
        Config { recent_items, workspace_file_states, workspace_sessions }
    }

    /// The remembered workspace sessions, most recently recorded first.
    pub fn workspace_sessions(&self) -> (r: &Vec<WorkspaceSession>)
        ensures
            session_views(r@) == self.sessions(),
    {
        &self.workspace_sessions
    }

    /// Where the session of `workspace` is kept, if one is.
    fn session_index(&self, workspace: &str) -> (r: Option<usize>)
        ensures
            match r {
                Some(i) => session_at(self.sessions(), workspace@, i as int),
                None => forall|j: int| 0 <= j < self.sessions().len() ==> !same_path(#[trigger] self.sessions()[j].0, workspace@),
            },
    {
        let ghost views = self.sessions();
        let mut i: usize = 0;
        while i < self.workspace_sessions.len()
            invariant
                i <= self.workspace_sessions.len(),
                views == session_views(self.workspace_sessions@),
                forall|j: int| 0 <= j < i ==> !same_path(#[trigger] views[j].0, workspace@),
            decreases self.workspace_sessions.len() - i,
        {
            if paths_equal(self.workspace_sessions[i].workspace_path.as_str(), workspace) {
                return Some(i);
            }
            i += 1;
        }
        None
    }

    /// The session remembered for `workspace`, if any.
    pub fn workspace_session(&self, workspace: &str) -> (r: Option<&WorkspaceSession>)
        ensures
            match session_of(self.sessions(), workspace@) {
                Some(v) => r matches Some(s) && s@ == v,
                None => r is None,
            },
    {
        match self.session_index(workspace) {
            Some(i) => {
                proof {
                    let k = choose|k: int| session_at(self.sessions(), workspace@, k);
                    lemma_session_at_unique(self.sessions(), workspace@, i as int, k);
                }
                Some(&self.workspace_sessions[i])
            },
            None => None,
        }
    }

    /// Remember `session` for its workspace, in place of what it had.
    pub fn set_workspace_session(&mut self, session: WorkspaceSession)
        ensures
            final(self).sessions() == with_session(old(self).sessions(), session@),
            final(self).recent() == old(self).recent(),
            final(self).states() == old(self).states(),
    {
        let ghost views = self.sessions();
        let ghost added = session@;
        match self.session_index(session.workspace_path.as_str()) {
            Some(i) => {
                proof {
                    let k = choose|k: int| session_at(views, added.0, k);
                    lemma_session_at_unique(views, added.0, i as int, k);
                }
                self.workspace_sessions.remove(i);
                proof {
                    assert(session_views(self.workspace_sessions@) =~= views.remove(i as int));
                }
            },
            None => {},
        }
        let ghost rest = self.sessions();
        self.workspace_sessions.insert(0, session);
        proof {
            assert(self.sessions() =~= seq![added] + rest);
        }
    }

    /// The remembered last files, most recent first.
    pub fn workspace_file_states(&self) -> (r: &Vec<WorkspaceFileState>)
        ensures
            state_views(r@) == self.states(),
    {
        &self.workspace_file_states
    }

    /// Drop the workspace states whose workspace is not a recent folder.
    pub fn prune_workspace_file_states_to_recent_dirs(&mut self)
        ensures
            final(self).recent() == old(self).recent(),
            final(self).states() == kept_states(old(self).states(), old(self).recent()),
            final(self).states_follow_recent_dirs(),
            final(self).sessions() == old(self).sessions(),
    {
        let ghost old_views = self.states();
        let ghost items = self.recent();
        let ghost pred = |entry: (Seq<char>, Seq<char>)| is_recent_dir(items, entry.0);
        let mut out: Vec<WorkspaceFileState> = Vec::new();
        let mut i: usize = 0;
        while i < self.workspace_file_states.len()
            invariant
                i <= self.workspace_file_states.len(),
                old_views == state_views(self.workspace_file_states@),
                items == recent_views(self.recent_items@),
                pred == (|entry: (Seq<char>, Seq<char>)| is_recent_dir(items, entry.0)),
                state_views(out@) == old_views.take(i as int).filter(pred),
            decreases self.workspace_file_states.len() - i,
        {
            proof {
                lemma_filter_take_step(old_views, pred, i as int);
            }
            if has_recent_dir(&self.recent_items, self.workspace_file_states[i].workspace_path.as_str()) {
                let copy = copy_state(&self.workspace_file_states[i]);
                let ghost before = out@;
                out.push(copy);
                proof {
                    assert(state_views(out@) =~= state_views(before).push(copy@));
                }
            }
            i += 1;
        }
        proof {
            assert(old_views.take(self.workspace_file_states.len() as int) =~= old_views);
        }
        self.workspace_file_states = out;
        proof {
            law_kept_states_are_recent_dirs(old_views, items);
        }
    }

    /// Record that `path` was opened: it heads the recent list (at most ten
    /// entries, one per path), and workspaces that are no longer recent
    /// folders forget their last file.
    pub fn add_recent(&mut self, path: String, is_dir: bool)
        ensures
            final(self).recent() == with_recent(old(self).recent(), (path@, is_dir), MAX_RECENT_ITEMS as nat),
            final(self).states() == kept_states(old(self).states(), final(self).recent()),
            final(self).states_follow_recent_dirs(),
            final(self).sessions() == old(self).sessions(),
    {
        let item = RecentItem { path, is_dir };
        insert_recent(&mut self.recent_items, item, MAX_RECENT_ITEMS);
        self.prune_workspace_file_states_to_recent_dirs();
    }

    /// Forget every recent item and every workspace's last file.
    pub fn clear_recent_items(&mut self)
        ensures
            final(self).recent() == Seq::<(Seq<char>, bool)>::empty(),
            final(self).states() == Seq::<(Seq<char>, Seq<char>)>::empty(),
            final(self).states_follow_recent_dirs(),
            final(self).sessions() == old(self).sessions(),
    {
        self.recent_items.clear();
        self.workspace_file_states.clear();
        proof {
            assert(self.recent() =~= Seq::<(Seq<char>, bool)>::empty());
            assert(self.states() =~= Seq::<(Seq<char>, Seq<char>)>::empty());
        }
    }

    /// Record `file_path` as the last file of `workspace_path` (at most fifty
    /// workspaces, one state each), then forget workspaces that are not
    /// recent folders.
    pub fn set_workspace_last_file(&mut self, workspace_path: &str, file_path: &str)
        ensures
            final(self).recent() == old(self).recent(),
            final(self).states() == kept_states(
                with_workspace_state(
                    old(self).states(),
                    (workspace_path@, file_path@),
                    MAX_WORKSPACE_FILE_STATES as nat,
                ),
                old(self).recent(),
            ),
            final(self).states_follow_recent_dirs(),
            final(self).sessions() == old(self).sessions(),
    {
        let state = WorkspaceFileState {
            workspace_path: to_owned_string(workspace_path),
            file_path: to_owned_string(file_path),
        };
        insert_workspace_state(&mut self.workspace_file_states, state, MAX_WORKSPACE_FILE_STATES);
        self.prune_workspace_file_states_to_recent_dirs();
    }

    /// Record that the file at `path` was opened: inside the open workspace
    /// it becomes the workspace's last file; elsewhere it heads the recent
    /// list. Says whether it was inside the workspace.
    pub fn track_file_open(&mut self, workspace: Option<&str>, path: &str) -> (in_workspace: bool)
        ensures
            in_workspace == (workspace matches Some(w) && starts_with_components(path@, w@)),
            in_workspace ==> final(self).recent() == old(self).recent() && final(self).states() == kept_states(
                with_workspace_state(
                    old(self).states(),
                    (workspace->0@, path@),
                    MAX_WORKSPACE_FILE_STATES as nat,
                ),
                old(self).recent(),
            ),
            !in_workspace ==> final(self).recent() == with_recent(
                old(self).recent(),
                (path@, false),
                MAX_RECENT_ITEMS as nat,
            ) && final(self).states() == kept_states(old(self).states(), final(self).recent()),
            final(self).states_follow_recent_dirs(),
            final(self).sessions() == old(self).sessions(),
    {
        match workspace {
            Some(w) => {
                if path_starts_with(path, w) {
                    self.set_workspace_last_file(w, path);
                    return true;
                }
            },
            None => {},
        }
        self.add_recent(to_owned_string(path), false);
        false
    }

    /// The last file open in `workspace_path`, if one is remembered.
    pub fn workspace_last_file(&self, workspace_path: &str) -> (r: Option<String>)
        ensures
            match last_file(self.states(), workspace_path@) {
                Some(f) => r matches Some(s) && s@ == f,
                None => r is None,
            },
    {
        let ghost views = self.states();
        proof {
            assert(views.skip(0) =~= views);
        }
        let mut i: usize = 0;
        while i < self.workspace_file_states.len()
            invariant
                i <= self.workspace_file_states.len(),
                views == state_views(self.workspace_file_states@),
                last_file(views, workspace_path@) == last_file(views.skip(i as int), workspace_path@),
            decreases self.workspace_file_states.len() - i,
        {
            let ghost rest = views.skip(i as int);
            proof {
                assert(rest[0] == views[i as int]);
                assert(rest.drop_first() =~= views.skip(i + 1));
            }
            if paths_equal(self.workspace_file_states[i].workspace_path.as_str(), workspace_path) {
                return Some(self.workspace_file_states[i].file_path.clone());
            }
            i += 1;
        }
        proof {
            assert(views.skip(i as int).len() == 0);
        }
        None
    }
}

impl Default for Config {
    fn default() -> (r: Config)
        ensures
            r.recent() == Seq::<(Seq<char>, bool)>::empty(),
            r.states() == Seq::<(Seq<char>, Seq<char>)>::empty(),
            r.sessions() == Seq::<SessionView>::empty(),
    {
        let r = Config { recent_items: Vec::new(), workspace_file_states: Vec::new(), workspace_sessions: Vec::new() };
        proof {
            assert(r.recent() =~= Seq::<(Seq<char>, bool)>::empty());
            assert(r.states() =~= Seq::<(Seq<char>, Seq<char>)>::empty());
            assert(r.sessions() =~= Seq::<SessionView>::empty());
        }
        r
    }
}

/// The theme choice a settings file without one gets: follow the OS.
pub fn default_theme_choice() -> (r: String)
    ensures
        r@ == "auto"@,
{
    to_owned_string("auto")
}

/// Theme settings: the app chrome theme (`"auto"`, `"dark"` or `"light"`),
/// the syntax theme, and an optional theme file.
#[derive(Clone, Debug, PartialEq, Eq)]
pub struct ThemeSettings {
    pub choice: String,
    pub syntax_theme: String,
    pub theme_path: Option<String>,
}

impl Default for ThemeSettings {
    fn default() -> (r: ThemeSettings)
        ensures
            r.choice@ == "auto"@,
            r.syntax_theme@ == "base16-ocean.dark"@,
            r.theme_path is None,
    {
        ThemeSettings {
            choice: default_theme_choice(),
            syntax_theme: to_owned_string("base16-ocean.dark"),
            theme_path: None,
        }
    }
}

/// The external formatter: a command run with the document on stdin (empty
/// disables it), its space-separated arguments, and whether saving formats
/// first.
#[derive(Clone, Debug, PartialEq, Eq)]
pub struct FormatterSettings {
    pub command: String,
    pub args: String,
    pub format_on_save: bool,
}

impl FormatterSettings {
    /// Whether a formatter is set: its command is not blank.
    pub fn is_configured(&self) -> (r: bool)
        ensures
            r == (crate::rank::trimmed(self.command@).len() > 0),
    {
        crate::rank::trim_chars(self.command.as_str()).len() > 0
    }

    /// Whether saving runs the formatter first: switched on, with a
    /// formatter set.
    pub fn formats_on_save(&self) -> (r: bool)
        ensures
            r == (self.format_on_save && crate::rank::trimmed(self.command@).len() > 0),
    {
        self.format_on_save && self.is_configured()
    }
}

impl Default for FormatterSettings {
    fn default() -> (r: FormatterSettings)
        ensures
            r.command@ == Seq::<char>::empty(),
            r.args@ == "--stdin"@,
            r.format_on_save,
    {
        FormatterSettings {
            command: String::new(),
            args: to_owned_string("--stdin"),
            format_on_save: true,
        }
    }
}

/// Editing behavior: whether brackets and quotes are paired as they are
/// typed.
#[derive(Clone, Copy, Debug, PartialEq, Eq)]
pub struct BehaviorSettings {
    pub smart_pairing: bool,
}

impl Default for BehaviorSettings {
    fn default() -> (r: BehaviorSettings)
        ensures
            r.smart_pairing,
    {
        BehaviorSettings { smart_pairing: true }
    }
}

/// Opening an item puts it first in the recent list; the list never grows
/// past its cap, holds no other entry for the same path, keeps paths
/// distinct, and every other entry was already in the list.
pub proof fn law_recent_list_shape(items: Seq<(Seq<char>, bool)>, item: (Seq<char>, bool), max: nat)
    requires
        distinct_paths(items),
    ensures
        with_recent(items, item, max).len() <= max,
        max > 0 ==> with_recent(items, item, max)[0] == item,
        forall|i: int|
            0 < i < with_recent(items, item, max).len() ==> !same_path(
                #[trigger] with_recent(items, item, max)[i].0,
                item.0,
            ) && items.contains(with_recent(items, item, max)[i]),
        distinct_paths(with_recent(items, item, max)),
{
    let pred = |entry: (Seq<char>, bool)| !same_path(entry.0, item.0);
    let other = other_paths(items, item.0);
    let full = seq![item] + other;
    let r = with_recent(items, item, max);
    assert forall|i: int| 0 < i < full.len() implies !same_path(#[trigger] full[i].0, item.0)
        && items.contains(full[i]) by {
        lemma_filter_members(items, pred, i - 1);
        assert(full[i] == other[i - 1]);
    }
    lemma_filter_keeps_distinct(items, pred);
    assert(distinct_paths(full)) by {
        assert forall|i: int, j: int| 0 <= i < j < full.len() implies !same_path(
            #[trigger] full[i].0,
            #[trigger] full[j].0,
        ) by {
            if i == 0 {
                assert(!same_path(full[j].0, item.0));
            } else {
                assert(full[i] == other[i - 1] && full[j] == other[j - 1]);
            }
        }
    }
    assert forall|i: int| 0 <= i < r.len() implies #[trigger] r[i] == full[i] by {}
}

/// Only recent folders keep a remembered last file.
pub proof fn law_kept_states_are_recent_dirs(states: Seq<(Seq<char>, Seq<char>)>, items: Seq<(Seq<char>, bool)>)
    ensures
        forall|i: int|
            0 <= i < kept_states(states, items).len() ==> is_recent_dir(
                items,
                #[trigger] kept_states(states, items)[i].0,
            ),
{
    let pred = |entry: (Seq<char>, Seq<char>)| is_recent_dir(items, entry.0);
    assert forall|i: int| 0 <= i < kept_states(states, items).len() implies is_recent_dir(
        items,
        #[trigger] kept_states(states, items)[i].0,
    ) by {
        lemma_filter_members(states, pred, i);
    }
}

/// Recording a workspace's last file and reading it back gives that file,
/// as long as the workspace is a recent folder.
pub proof fn law_last_file_reads_back(
    states: Seq<(Seq<char>, Seq<char>)>,
    items: Seq<(Seq<char>, bool)>,
    workspace: Seq<char>,
    file: Seq<char>,
    max: nat,
)
    requires
        is_recent_dir(items, workspace),
        max > 0,
    ensures
        last_file(kept_states(with_workspace_state(states, (workspace, file), max), items), workspace)
            == Some(file),
{
    let x = (workspace, file);
    let pred = |entry: (Seq<char>, Seq<char>)| is_recent_dir(items, entry.0);
    let s = with_workspace_state(states, x, max);
    let t = s.drop_first();
    assert(s =~= seq![x] + t);
    Seq::filter_distributes_over_add(seq![x], t, pred);
    assert(seq![x].filter(pred) =~= seq![x]) by {
        reveal_with_fuel(Seq::filter, 2);
        assert(seq![x].drop_last() =~= Seq::<(Seq<char>, Seq<char>)>::empty());
    }
    let kept = kept_states(s, items);
    assert(kept =~= seq![x] + t.filter(pred));
    assert(kept[0] == x);
}

} // verus!
