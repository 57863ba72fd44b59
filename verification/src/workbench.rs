//! The open documents and which one is active: switching, closing (never
//! losing unsaved edits), reusing the untouched startup document for the
//! first file opened, and the window title.

use vstd::prelude::*;

use crate::buffer::Buffer;
use crate::document::{format_applied, OpenDocument};
use crate::paths::{components, path_starts_with, paths_equal, starts_with_components};
use crate::commands::copy_strings;
use crate::text::{string_views, to_owned_string};

verus! {

/// The status a dirty document shows when closing it is refused.
pub open spec fn unsaved_status() -> Seq<char> {
    "Unsaved changes — save before closing"@
}

/// What closing a document did.
#[derive(Clone, Copy, Debug, PartialEq, Eq, Structural)]
pub enum CloseOutcome {
    /// There is no document at that index.
    Ignored,
    /// The document has unsaved changes; it stays open and says so.
    Refused,
    /// It was the only document; an empty one took its place.
    Reset,
    /// It was removed.
    Removed,
}

/// The open documents, at least one, and the active one.
pub struct Workbench {
    documents: Vec<OpenDocument>,
    active: usize,
}

/// `doc` is saved at `path` (compared component by component).
pub open spec fn has_path(doc: OpenDocument, path: Seq<char>) -> bool {
    doc.doc_buffer().path_view() matches Some(p) && components(p) == components(path)
}

/// The active index after removing the document at `index` from `len`
/// documents.
pub open spec fn active_after_remove(active: int, index: int, len: int) -> int {
    if active >= len - 1 {
        len - 2
    } else if index < active {
        active - 1
    } else {
        active
    }
}

/// An optional path as characters.
pub open spec fn path_view(path: Option<&str>) -> Option<Seq<char>> {
    match path {
        Some(p) => Some(p@),
        None => None,
    }
}

/// Closing a tab keeps the focus where it was: closing another tab leaves
/// the same document active (its index drops by one when the closed tab
/// was before it); closing the active tab moves the focus to the next tab,
/// or to the previous one when it was the last.
pub proof fn law_close_keeps_the_focus(docs: Seq<OpenDocument>, active: int, index: int)
    requires
        docs.len() > 1,
        0 <= active < docs.len(),
        0 <= index < docs.len(),
    ensures
        0 <= active_after_remove(active, index, docs.len() as int) < docs.len() - 1,
        index != active ==> docs.remove(index)[active_after_remove(active, index, docs.len() as int)]
            == docs[active],
        index == active ==> docs.remove(index)[active_after_remove(active, index, docs.len() as int)]
            == docs[if index == docs.len() - 1 {
            index - 1
        } else {
            index + 1
        }],
{
}

/// What a workspace remembers between visits: its open files in tab order,
/// the focused one, whether the settings were showing, and the expanded
/// folders of its file tree.
#[derive(Clone, Debug)]
pub struct WorkspaceSession {
    pub workspace_path: String,
    pub open_files: Vec<String>,
    pub active_file: Option<String>,
    pub configuration_open: bool,
    pub expanded_dirs: Vec<String>,
}

/// An optional string as characters.
pub open spec fn opt_view(o: Option<String>) -> Option<Seq<char>> {
    match o {
        Some(s) => Some(s@),
        None => None,
    }
}

/// A session as values: the workspace, its open files, the focused file,
/// whether the settings were showing, and the expanded folders.
pub type SessionView = (Seq<char>, Seq<Seq<char>>, Option<Seq<char>>, bool, Seq<Seq<char>>);

impl View for WorkspaceSession {
    type V = SessionView;

    open spec fn view(&self) -> SessionView {
        (
            self.workspace_path@,
            string_views(self.open_files@),
            opt_view(self.active_file),
            self.configuration_open,
            string_views(self.expanded_dirs@),
        )
    }
}

/// What reopening a workspace does: the files to open in tab order, the one
/// to focus, whether to show the settings once they are loaded, and the
/// folders of the file tree to expand.
#[derive(Clone, Debug)]
pub struct RestorePlan {
    pub open_files: Vec<String>,
    pub active_file: Option<String>,
    pub configuration_open: bool,
    pub expanded: Vec<String>,
}

/// How to reopen the workspace at `root` from what it remembers: a
/// remembered session comes back as it was (its folders are then expanded
/// where they still exist on disk); a workspace seen for the first time
/// opens nothing and expands only its top level.
pub fn restore_plan(session: Option<&WorkspaceSession>, root: &str) -> (r: RestorePlan)
    ensures
        match session {
            None => {
                &&& string_views(r.expanded@) == seq![root@]
                &&& r.open_files@.len() == 0
                &&& r.active_file is None
                &&& !r.configuration_open
            },
            Some(s) => {
                &&& string_views(r.open_files@) == string_views(s.open_files@)
                &&& opt_view(r.active_file) == opt_view(s.active_file)
                &&& r.configuration_open == s.configuration_open
                &&& string_views(r.expanded@) == string_views(s.expanded_dirs@)
            },
        },
{
    match session {
        None => {
            let mut expanded: Vec<String> = Vec::new();
            expanded.push(to_owned_string(root));
            proof {
                assert(string_views(expanded@) =~= seq![root@]);
            }
            RestorePlan { open_files: Vec::new(), active_file: None, configuration_open: false, expanded }
        },
        Some(s) => {
            let active_file = match &s.active_file {
                Some(f) => Some(f.clone()),
                None => None,
            };
            RestorePlan {
                open_files: copy_strings(&s.open_files),
                active_file,
                configuration_open: s.configuration_open,
                expanded: copy_strings(&s.expanded_dirs),
            }
        },
    }
}

/// Two optional workspaces are the same: both none, or the same path.
pub open spec fn same_workspace(a: Option<Seq<char>>, b: Option<Seq<char>>) -> bool {
    match (a, b) {
        (None, None) => true,
        (Some(x), Some(y)) => components(x) == components(y),
        _ => false,
    }
}

/// `d` is a document just opened on `b`: caret at the end, no selection, no
/// history, clean, no status.
pub open spec fn fresh_doc(d: OpenDocument, b: Buffer) -> bool {
    &&& d.wf()
    &&& d.doc_buffer() == b
    &&& d.doc_caret().caret() == b@.len()
    &&& d.doc_caret().anchor() is None
    &&& d.doc_history().undo_stack().len() == 0
    &&& d.doc_history().redo_stack().len() == 0
    &&& !d.dirty()
    &&& d.generation() == 0
    &&& d.status() is None
    &&& !d.missing()
    &&& !d.binary()
}

/// The paths of `docs` that lie inside `workspace`, in tab order.
pub open spec fn session_files(docs: Seq<OpenDocument>, workspace: Seq<char>) -> Seq<Seq<char>>
    decreases docs.len(),
{
    if docs.len() == 0 {
        Seq::<Seq<char>>::empty()
    } else {
        let rest = session_files(docs.drop_last(), workspace);
        match docs.last().doc_buffer().path_view() {
            Some(p) => if starts_with_components(p, workspace) {
                rest.push(p)
            } else {
                rest
            },
            None => rest,
        }
    }
}

/// The paths of `paths` that lie inside `workspace`, in order.
pub open spec fn inside_only(paths: Seq<Seq<char>>, workspace: Seq<char>) -> Seq<Seq<char>> {
    paths.filter(|p: Seq<char>| starts_with_components(p, workspace))
}

/// `after` is `before` moved to `to` when `before` was saved at `from`,
/// and `before` itself otherwise.
pub open spec fn renamed(before: OpenDocument, after: OpenDocument, from: Seq<char>, to: Seq<char>) -> bool {
    if has_path(before, from) {
        &&& after.text() == before.text()
        &&& after.doc_buffer().path_view() == Some(to)
        &&& after.doc_caret() == before.doc_caret()
        &&& after.doc_history() == before.doc_history()
        &&& after.dirty() == before.dirty()
        &&& after.generation() == before.generation()
        &&& after.status() == before.status()
        &&& !after.missing()
        &&& after.binary() == before.binary()
    } else {
        after == before
    }
}

/// Whether `files` holds `path` (compared component by component).
pub open spec fn holds_path(files: Seq<Seq<char>>, path: Seq<char>) -> bool {
    exists|i: int| 0 <= i < files.len() && components(#[trigger] files[i]) == components(path)
}


impl Workbench {
    pub closed spec fn docs(&self) -> Seq<OpenDocument> {
        self.documents@
    }

    pub closed spec fn active_index(&self) -> int {
        self.active as int
    }

    /// At least one document, the active one among them, each well formed.
    pub open spec fn wf(&self) -> bool {
        &&& self.docs().len() > 0
        &&& 0 <= self.active_index() < self.docs().len()
        &&& forall|i: int| 0 <= i < self.docs().len() ==> #[trigger] self.docs()[i].wf()
    }

    /// The active document.
    pub open spec fn active_doc(&self) -> OpenDocument {
        self.docs()[self.active_index()]
    }

    /// One empty untitled document.
    pub fn new() -> (r: Workbench)
        ensures
            r.wf(),
            r.docs().len() == 1,
            r.active_index() == 0,
            r.active_doc().text() == Seq::<char>::empty(),
            r.active_doc().doc_buffer().path_view() is None,
            !r.active_doc().dirty(),
    {
        let mut documents: Vec<OpenDocument> = Vec::new();
        documents.push(OpenDocument::new_empty());
        Workbench { documents, active: 0 }
    }

    /// The open documents.
    pub fn documents(&self) -> (r: &Vec<OpenDocument>)
        ensures
            r@ == self.docs(),
    {
        &self.documents
    }

    /// Index of the active document.
    pub fn active(&self) -> (r: usize)
        ensures
            r == self.active_index(),
    {
        self.active
    }

    /// The active document.
    pub fn active_document(&self) -> (r: &OpenDocument)
        requires
            self.wf(),
        ensures
            *r == self.active_doc(),
    {
        &self.documents[self.active]
    }

    /// Make the document at `index` active; an index past the end changes
    /// nothing.
    pub fn switch_to_document(&mut self, index: usize) -> (switched: bool)
        requires
            old(self).wf(),
        ensures
            final(self).wf(),
            switched == (index < old(self).docs().len()),
            final(self).docs() == old(self).docs(),
            final(self).active_index() == (if switched {
                index as int
            } else {
                old(self).active_index()
            }),
    {
        if index >= self.documents.len() {
            return false;
        }
        self.active = index;
        true
    }

    /// Close the document at `index`. A dirty document is never closed: it
    /// shows why and stays. The last document is replaced by an empty one;
    /// otherwise the document goes and the active one stays active (or the
    /// last one becomes active when the active one went past the end).
    pub fn close_document(&mut self, index: usize) -> (outcome: CloseOutcome)
        requires
            old(self).wf(),
        ensures
            final(self).wf(),
            index >= old(self).docs().len() ==> outcome == CloseOutcome::Ignored && final(self).docs()
                == old(self).docs() && final(self).active_index() == old(self).active_index(),
            index < old(self).docs().len() && old(self).docs()[index as int].dirty() ==> {
                &&& outcome == CloseOutcome::Refused
                &&& final(self).docs().len() == old(self).docs().len()
                &&& final(self).active_index() == old(self).active_index()
                &&& forall|i: int| 0 <= i < old(self).docs().len() && i != index ==> #[trigger] final(self).docs()[i]
                    == old(self).docs()[i]
                &&& final(self).docs()[index as int].doc_buffer() == old(self).docs()[index as int].doc_buffer()
                &&& final(self).docs()[index as int].doc_caret() == old(self).docs()[index as int].doc_caret()
                &&& final(self).docs()[index as int].doc_history() == old(self).docs()[index as int].doc_history()
                &&& final(self).docs()[index as int].dirty()
                &&& final(self).docs()[index as int].status() == Some(unsaved_status())
            },
            index < old(self).docs().len() && !old(self).docs()[index as int].dirty() && old(self).docs().len()
                == 1 ==> {
                &&& outcome == CloseOutcome::Reset
                &&& final(self).docs().len() == 1
                &&& final(self).active_index() == 0
                &&& final(self).active_doc().text() == Seq::<char>::empty()
                &&& final(self).active_doc().doc_buffer().path_view() is None
                &&& !final(self).active_doc().dirty()
            },
            index < old(self).docs().len() && !old(self).docs()[index as int].dirty() && old(self).docs().len()
                > 1 ==> {
                &&& outcome == CloseOutcome::Removed
                &&& final(self).docs() == old(self).docs().remove(index as int)
                &&& final(self).active_index() == active_after_remove(
                    old(self).active_index(),
                    index as int,
                    old(self).docs().len() as int,
                )
                &&& index != old(self).active_index() ==> final(self).active_doc() == old(self).active_doc()
                &&& index == old(self).active_index() ==> final(self).active_doc() == old(self).docs()[if index
                    == old(self).docs().len() - 1 {
                    index - 1
                } else {
                    index + 1
                }]
            },
    {
        if index >= self.documents.len() {
            return CloseOutcome::Ignored;
        }
        if self.documents[index].is_dirty() {
            let mut doc = self.documents.remove(index);
            proof {
                assert(doc == old(self).documents@[index as int]);
                assert(doc.wf());
            }
            doc.set_status("Unsaved changes — save before closing");
            proof {
                assert(doc.wf());
            }
            let ghost fixed = doc;
            self.documents.insert(index, doc);
            proof {
                assert forall|i: int| 0 <= i < self.documents@.len() implies #[trigger] self.documents@[i].wf() by {
                    if i != index {
                        assert(self.documents@[i] == old(self).documents@[i]);
                    } else {
                        assert(self.documents@[i] == fixed);
                    }
                }
            }
            return CloseOutcome::Refused;
        }
        self.discard_document(index)
    }

    /// Close the document at `index` whatever it holds, dropping unsaved
    /// edits. The last document is replaced by an empty one; otherwise the
    /// document goes and the active one stays active (or the last one
    /// becomes active when the active one went past the end).
    pub fn discard_document(&mut self, index: usize) -> (outcome: CloseOutcome)
        requires
            old(self).wf(),
        ensures
            final(self).wf(),
            index >= old(self).docs().len() ==> outcome == CloseOutcome::Ignored && final(self).docs()
                == old(self).docs() && final(self).active_index() == old(self).active_index(),
            index < old(self).docs().len() && old(self).docs().len() == 1 ==> {
                &&& outcome == CloseOutcome::Reset
                &&& final(self).docs().len() == 1
                &&& final(self).active_index() == 0
                &&& final(self).active_doc().text() == Seq::<char>::empty()
                &&& final(self).active_doc().doc_buffer().path_view() is None
                &&& !final(self).active_doc().dirty()
            },
            index < old(self).docs().len() && old(self).docs().len() > 1 ==> {
                &&& outcome == CloseOutcome::Removed
                &&& final(self).docs() == old(self).docs().remove(index as int)
                &&& final(self).active_index() == active_after_remove(
                    old(self).active_index(),
                    index as int,
                    old(self).docs().len() as int,
                )
                &&& index != old(self).active_index() ==> final(self).active_doc() == old(self).active_doc()
                &&& index == old(self).active_index() ==> final(self).active_doc() == old(self).docs()[if index
                    == old(self).docs().len() - 1 {
                    index - 1
                } else {
                    index + 1
                }]
            },
    {
        if index >= self.documents.len() {
            return CloseOutcome::Ignored;
        }
        if self.documents.len() == 1 {
            let mut documents: Vec<OpenDocument> = Vec::new();
            documents.push(OpenDocument::new_empty());
            self.documents = documents;
            self.active = 0;
            return CloseOutcome::Reset;
        }
        let ghost before = self.documents@;
        self.documents.remove(index);
        proof {
            assert forall|i: int| 0 <= i < self.documents@.len() implies #[trigger] self.documents@[i].wf() by {
                if i < index {
                    assert(self.documents@[i] == before[i]);
                } else {
                    assert(self.documents@[i] == before[i + 1]);
                }
            }
        }
        if self.active >= self.documents.len() {
            self.active = self.documents.len() - 1;
        } else if index < self.active {
            self.active = self.active - 1;
        }
        CloseOutcome::Removed
    }

    /// Whether the next opened file should take the place of the active
    /// document: it is the only one, untitled, clean and empty.
    pub fn should_reuse_active_document_slot(&self) -> (r: bool)
        requires
            self.wf(),
        ensures
            r == (self.docs().len() == 1 && self.active_index() == 0 && self.active_doc().doc_buffer().path_view()
                is None && !self.active_doc().dirty() && self.active_doc().text().len() == 0),
    {
        if self.documents.len() != 1 || self.active != 0 {
            return false;
        }
        let doc = &self.documents[self.active];
        doc.buffer().path().is_none() && !doc.is_dirty() && doc.buffer().len_chars() == 0
    }

    /// The index of the first document saved at `path`, if one is open.
    pub fn position_of_path(&self, path: &str) -> (r: Option<usize>)
        ensures
            match r {
                Some(i) => i < self.docs().len() && has_path(self.docs()[i as int], path@) && forall|j: int|
                    0 <= j < i ==> !has_path(#[trigger] self.docs()[j], path@),
                None => forall|j: int| 0 <= j < self.docs().len() ==> !has_path(#[trigger] self.docs()[j], path@),
            },
    {
        let mut i: usize = 0;
        while i < self.documents.len()
            invariant
                i <= self.documents.len(),
                forall|j: int| 0 <= j < i ==> !has_path(#[trigger] self.docs()[j], path@),
            decreases self.documents.len() - i,
        {
            let found = match self.documents[i].buffer().path() {
                Some(p) => paths_equal(p.as_str(), path),
                None => false,
            };
            if found {
                return Some(i);
            }
            i += 1;
        }
        None
    }

    /// Follow a rename made in the file tree: every document saved at
    /// `from` is now saved at `to`, its text and edits untouched. Returns
    /// whether any document moved.
    pub fn on_path_renamed(&mut self, from: &str, to: &str) -> (moved: bool)
        requires
            old(self).wf(),
        ensures
            final(self).wf(),
            final(self).active_index() == old(self).active_index(),
            final(self).docs().len() == old(self).docs().len(),
            forall|i: int|
                0 <= i < old(self).docs().len() ==> renamed(
                    #[trigger] old(self).docs()[i],
                    final(self).docs()[i],
                    from@,
                    to@,
                ),
            moved == exists|i: int| 0 <= i < old(self).docs().len() && has_path(#[trigger] old(self).docs()[i], from@),
    {
        let ghost before = self.documents@;
        let mut moved = false;
        let mut i: usize = 0;
        while i < self.documents.len()
            invariant
                self.documents@.len() == before.len(),
                i <= before.len(),
                self.active < before.len(),
                self.active == old(self).active,
                before == old(self).documents@,
                forall|j: int| 0 <= j < i ==> renamed(#[trigger] before[j], self.documents@[j], from@, to@),
                forall|j: int| i <= j < before.len() ==> #[trigger] self.documents@[j] == before[j],
                forall|j: int| 0 <= j < before.len() ==> #[trigger] self.documents@[j].wf(),
                moved == exists|j: int| 0 <= j < i && has_path(#[trigger] before[j], from@),
            decreases before.len() - i,
        {
            let hit = match self.documents[i].buffer().path() {
                Some(p) => paths_equal(p.as_str(), from),
                None => false,
            };
            if hit {
                let ghost mid = self.documents@;
                let mut doc = self.documents.remove(i);
                proof {
                    assert(doc == mid[i as int]);
                    assert(mid[i as int].wf());
                }
                doc.set_path(to);
                doc.set_missing(false);
                let ghost fixed = doc;
                self.documents.insert(i, doc);
                moved = true;
                proof {
                    assert(fixed.wf());
                    assert(self.documents@ == mid.update(i as int, fixed));
                }
            }
            proof {
                assert(has_path(before[i as int], from@) == hit);
            }
            i += 1;
        }
        moved
    }

    /// The only document is the untouched startup one: untitled, clean and
    /// empty.
    pub open spec fn untouched(&self) -> bool {
        &&& self.docs().len() == 1
        &&& self.active_doc().doc_buffer().path_view() is None
        &&& !self.active_doc().dirty()
        &&& self.active_doc().text().len() == 0
    }

    /// Take in a batch of files read for `batch_workspace` while
    /// `current_workspace` is open. A batch for a workspace the user has left,
    /// or an empty one, is dropped. Otherwise the files open after the other
    /// documents, in order (the untouched startup document gives way), the
    /// one at `activate` gets focus (else the focus stays), and a pending
    /// request to show the settings is consumed: the result says whether it
    /// was for the current workspace.
    pub fn on_files_loaded(
        &mut self,
        batch_workspace: Option<&str>,
        current_workspace: Option<&str>,
        buffers: Vec<Buffer>,
        activate: Option<&str>,
        pending_restore: &mut Option<String>,
    ) -> (open_configuration: bool)
        requires
            old(self).wf(),
        ensures
            final(self).wf(),
            !same_workspace(path_view(batch_workspace), path_view(current_workspace)) || buffers@.len() == 0 ==> {
                &&& !open_configuration
                &&& final(self).docs() == old(self).docs()
                &&& final(self).active_index() == old(self).active_index()
                &&& *final(pending_restore) == *old(pending_restore)
            },
            same_workspace(path_view(batch_workspace), path_view(current_workspace)) && buffers@.len() > 0 ==> {
                let base = if old(self).untouched() {
                    Seq::<OpenDocument>::empty()
                } else {
                    old(self).docs()
                };
                &&& final(self).docs().len() == base.len() + buffers@.len()
                &&& final(self).docs().take(base.len() as int) == base
                &&& forall|k: int|
                    0 <= k < buffers@.len() ==> fresh_doc(#[trigger] final(self).docs()[base.len() + k], buffers@[k])
                &&& match activate {
                    Some(p) => if exists|i: int|
                        0 <= i < final(self).docs().len() && has_path(#[trigger] final(self).docs()[i], p@) {
                        final(self).first_at(final(self).active_index(), p@)
                    } else {
                        final(self).active_index() == old(self).active_index()
                    },
                    None => final(self).active_index() == old(self).active_index(),
                }
                &&& open_configuration == (*old(pending_restore) matches Some(w) && current_workspace matches Some(c)
                    && components(w@) == components(c@))
                &&& *final(pending_restore) is None
            },
    {
        let same = match (batch_workspace, current_workspace) {
            (None, None) => true,
            (Some(a), Some(b)) => paths_equal(a, b),
            _ => false,
        };
        if !same || buffers.len() == 0 {
            return false;
        }
        let ghost before = self.documents@;
        let reuse = self.should_reuse_active_document_slot();
        if reuse {
            self.documents = Vec::new();
        }
        let ghost base = self.documents@;
        proof {
            assert(base == if old(self).untouched() {
                Seq::<OpenDocument>::empty()
            } else {
                before
            });
        }
        let ghost all = buffers@;
        proof {
            assert(all.len() == buffers.len());
        }
        let mut rest = buffers;
        let mut k: usize = 0;
        while rest.len() > 0
            invariant
                rest@ == all.skip(k as int),
                k <= all.len(),
                rest@.len() + k == all.len(),
                all.len() <= usize::MAX,
                self.documents@.len() == base.len() + k,
                self.documents@.take(base.len() as int) == base,
                forall|i: int| 0 <= i < base.len() ==> #[trigger] base[i].wf(),
                forall|j: int| 0 <= j < k ==> fresh_doc(#[trigger] self.documents@[base.len() + j], all[j]),
                self.active == old(self).active,
            decreases rest.len(),
        {
            let b = rest.remove(0);
            proof {
                assert(b == all[k as int]);
            }
            let doc = OpenDocument::from_buffer(b);
            let ghost mid = self.documents@;
            self.documents.push(doc);
            proof {
                assert(self.documents@.take(base.len() as int) =~= mid.take(base.len() as int));
                assert(all.skip(k + 1) =~= all.skip(k as int).drop_first());
                assert forall|j: int| 0 <= j < k + 1 implies fresh_doc(
                    #[trigger] self.documents@[base.len() + j],
                    all[j],
                ) by {
                    if j < k {
                        assert(self.documents@[base.len() + j] == mid[base.len() + j]);
                    }
                }
            }
            k += 1;
        }
        proof {
            assert(k == all.len());
            assert forall|i: int| 0 <= i < self.documents@.len() implies #[trigger] self.documents@[i].wf() by {
                if i < base.len() {
                    assert(self.documents@.take(base.len() as int)[i] == self.documents@[i]);
                } else {
                    assert(fresh_doc(self.documents@[base.len() + (i - base.len())], all[i - base.len()]));
                }
            }
        }
        match activate {
            Some(p) => match self.position_of_path(p) {
                Some(i) => {
                    self.active = i;
                },
                None => {},
            },
            None => {},
        }
        let taken = pending_restore.take();
        match (taken, current_workspace) {
            (Some(w), Some(c)) => paths_equal(w.as_str(), c),
            _ => false,
        }
    }

    /// Show a loaded buffer: it replaces the untouched startup document, or
    /// opens as a new active document after the others.
    pub fn open_buffer(&mut self, buffer: Buffer)
        requires
            old(self).wf(),
        ensures
            final(self).wf(),
            fresh_doc(final(self).active_doc(), buffer),
            final(self).docs().len() == (if old(self).docs().len() == 1 && old(self).active_doc().doc_buffer().path_view()
                is None && !old(self).active_doc().dirty() && old(self).active_doc().text().len() == 0 {
                1
            } else {
                old(self).docs().len() + 1
            }),
            final(self).docs().len() > old(self).docs().len() ==> final(self).docs().drop_last() == old(self).docs()
                && final(self).active_index() == old(self).docs().len(),
    {
        let reuse = self.should_reuse_active_document_slot();
        let doc = OpenDocument::from_buffer(buffer);
        if reuse {
            let mut documents: Vec<OpenDocument> = Vec::new();
            documents.push(doc);
            self.documents = documents;
            self.active = 0;
        } else {
            let ghost before = self.documents@;
            self.documents.push(doc);
            self.active = self.documents.len() - 1;
            proof {
                assert(self.documents@.drop_last() =~= before);
                assert forall|i: int| 0 <= i < self.documents@.len() implies #[trigger] self.documents@[i].wf() by {
                    if i < before.len() {
                        assert(self.documents@[i] == before[i]);
                    }
                }
            }
        }
    }

    /// The active document, to edit in place.
    pub fn active_document_mut(&mut self) -> (r: &mut OpenDocument)
        requires
            old(self).wf(),
        ensures
            *r == old(self).active_doc(),
            final(self).docs() == old(self).docs().update(old(self).active_index(), *final(r)),
            final(self).active_index() == old(self).active_index(),
    {
        let a = self.active;
        &mut self.documents[a]
    }

    /// `i` is the first document saved at `path`.
    pub open spec fn first_at(&self, i: int, path: Seq<char>) -> bool {
        &&& 0 <= i < self.docs().len()
        &&& has_path(self.docs()[i], path)
        &&& forall|j: int| 0 <= j < i ==> !has_path(#[trigger] self.docs()[j], path)
    }

    /// Record how a save of `path` ended, on the document saved at that
    /// path (not whichever is active now: the user may have switched while
    /// the write was in flight). Returns that document's index; nothing
    /// changes when no open document is saved there.
    pub fn on_file_saved(&mut self, path: &str, generation: u64, ok: bool) -> (r: Option<usize>)
        requires
            old(self).wf(),
        ensures
            final(self).wf(),
            final(self).active_index() == old(self).active_index(),
            final(self).docs().len() == old(self).docs().len(),
            match r {
                Some(i) => {
                    &&& old(self).first_at(i as int, path@)
                    &&& forall|j: int| 0 <= j < old(self).docs().len() && j != i ==> #[trigger] final(self).docs()[j]
                        == old(self).docs()[j]
                    &&& final(self).docs()[i as int].doc_buffer() == old(self).docs()[i as int].doc_buffer()
                    &&& final(self).docs()[i as int].doc_caret() == old(self).docs()[i as int].doc_caret()
                    &&& final(self).docs()[i as int].doc_history() == old(self).docs()[i as int].doc_history()
                    &&& final(self).docs()[i as int].generation() == old(self).docs()[i as int].generation()
                    &&& final(self).docs()[i as int].dirty() == (old(self).docs()[i as int].dirty() && !(ok
                        && generation == old(self).docs()[i as int].generation()))
                    &&& final(self).docs()[i as int].status() == Some(if ok {
                        "Saved "@ + path@
                    } else {
                        "Failed to save file"@
                    })
                },
                None => {
                    &&& forall|j: int| 0 <= j < old(self).docs().len() ==> !has_path(#[trigger] old(self).docs()[j], path@)
                    &&& final(self).docs() == old(self).docs()
                },
            },
    {
        let index = match self.position_of_path(path) {
            Some(i) => i,
            None => return None,
        };
        let ghost before = self.documents@;
        let mut doc = self.documents.remove(index);
        proof {
            assert(doc == before[index as int]);
            assert(before[index as int].wf());
        }
        doc.on_saved(path, generation, ok);
        proof {
            assert(doc.wf());
        }
        let ghost fixed = doc;
        self.documents.insert(index, doc);
        proof {
            assert forall|i: int| 0 <= i < self.documents@.len() implies #[trigger] self.documents@[i].wf() by {
                if i != index {
                    assert(self.documents@[i] == before[i]);
                } else {
                    assert(self.documents@[i] == fixed);
                }
            }
            assert forall|j: int| 0 <= j < before.len() && j != index implies #[trigger] self.documents@[j]
                == before[j] by {}
        }
        Some(index)
    }

    /// The document a formatter result belongs to: the one saved at `path`,
    /// or the active one for an untitled document.
    pub open spec fn format_target(&self, path: Option<Seq<char>>, i: int) -> bool {
        match path {
            Some(p) => self.first_at(i, p),
            None => i == self.active_index(),
        }
    }

    /// Apply a formatter result to the document it was run on (see
    /// `OpenDocument::apply_format_result`); a result for a path no open
    /// document has is dropped. Returns whether a text changed.
    pub fn on_formatting_finished(&mut self, path: Option<&str>, generation: u64, from_save: bool, result: Result<String, String>) -> (changed: bool)
        requires
            old(self).wf(),
            forall|i: int|
                old(self).format_target(path_view(path), i) ==> #[trigger] old(self).docs()[i].generation()
                    < u64::MAX,
        ensures
            final(self).wf(),
            final(self).active_index() == old(self).active_index(),
            final(self).docs().len() == old(self).docs().len(),
            forall|i: int|
                old(self).format_target(path_view(path), i) ==> {
                    &&& format_applied(
                        #[trigger] old(self).docs()[i],
                        final(self).docs()[i],
                        generation,
                        from_save,
                        result,
                        changed,
                    )
                    &&& forall|j: int|
                        0 <= j < old(self).docs().len() && j != i ==> #[trigger] final(self).docs()[j]
                            == old(self).docs()[j]
                },
            (forall|i: int| !old(self).format_target(path_view(path), i)) ==> !changed && final(self).docs()
                == old(self).docs(),
    {
        let index = match path {
            Some(p) => match self.position_of_path(p) {
                Some(i) => i,
                None => return false,
            },
            None => self.active,
        };
        let ghost before = self.documents@;
        let ghost target_path = path_view(path);
        proof {
            assert(self.format_target(target_path, index as int));
        }
        let mut doc = self.documents.remove(index);
        proof {
            assert(doc == before[index as int]);
            assert(doc.generation() < u64::MAX);
        }
        let ghost old_doc = doc;
        let changed = doc.apply_format_result(generation, from_save, result);
        let ghost fixed = doc;
        self.documents.insert(index, doc);
        proof {
            assert forall|i: int| 0 <= i < self.documents@.len() implies #[trigger] self.documents@[i].wf() by {
                if i != index {
                    assert(self.documents@[i] == before[i]);
                } else {
                    assert(self.documents@[i] == fixed);
                }
            }
            assert(self.documents@[index as int] == fixed);
            assert forall|j: int| 0 <= j < before.len() && j != index implies #[trigger] self.documents@[j]
                == before[j] by {}
            assert forall|i: int| old(self).format_target(target_path, i) implies i == index by {
                if i < index {
                    assert(!has_path(before[i], target_path->0));
                } else if i > index {
                    assert(!has_path(before[index as int], target_path->0));
                }
            }
        }
        changed
    }

    /// The focused file the session remembers: the active document's path
    /// when it lies inside the workspace; otherwise (a tab from elsewhere has
    /// focus) the file remembered before, while it is still open.
    pub open spec fn session_active(&self, workspace: Seq<char>, remembered: Option<Seq<char>>) -> Option<Seq<char>> {
        match self.active_doc().doc_buffer().path_view() {
            Some(p) => if starts_with_components(p, workspace) {
                Some(p)
            } else {
                Self::kept_remembered(session_files(self.docs(), workspace), remembered)
            },
            None => Self::kept_remembered(session_files(self.docs(), workspace), remembered),
        }
    }

    /// A remembered file, kept while it is among the open files.
    pub open spec fn kept_remembered(files: Seq<Seq<char>>, remembered: Option<Seq<char>>) -> Option<Seq<char>> {
        match remembered {
            Some(r) => if holds_path(files, r) {
                Some(r)
            } else {
                None
            },
            None => None,
        }
    }

    /// The session of `workspace` as the editor stands: the open files inside
    /// it in tab order, the focused one (see `session_active`), whether the
    /// settings show, and the expanded folders inside it.
    pub fn session(
        &self,
        workspace: &str,
        remembered_active: Option<&str>,
        expanded: &Vec<String>,
        configuration_open: bool,
    ) -> (r: WorkspaceSession)
        requires
            self.wf(),
        ensures
            r.workspace_path@ == workspace@,
            string_views(r.open_files@) == session_files(self.docs(), workspace@),
            match self.session_active(
                workspace@,
                match remembered_active {
                    Some(a) => Some(a@),
                    None => None,
                },
            ) {
                Some(p) => r.active_file matches Some(a) && a@ == p,
                None => r.active_file is None,
            },
            r.configuration_open == configuration_open,
            string_views(r.expanded_dirs@) == inside_only(string_views(expanded@), workspace@),
    {
        let ghost docs = self.docs();
        let mut open_files: Vec<String> = Vec::new();
        let mut i: usize = 0;
        while i < self.documents.len()
            invariant
                i <= self.documents.len(),
                docs == self.docs(),
                string_views(open_files@) == session_files(docs.take(i as int), workspace@),
            decreases self.documents.len() - i,
        {
            proof {
                assert(docs.take(i + 1).drop_last() =~= docs.take(i as int));
                assert(docs.take(i + 1).last() == docs[i as int]);
            }
            match self.documents[i].buffer().path() {
                Some(p) => {
                    if path_starts_with(p.as_str(), workspace) {
                        let ghost before = open_files@;
                        open_files.push(p.clone());
                        proof {
                            assert(string_views(open_files@) =~= string_views(before).push(p@));
                        }
                    }
                },
                None => {},
            }
            i += 1;
        }
        proof {
            assert(docs.take(self.documents.len() as int) =~= docs);
        }
        let active_path = self.documents[self.active].buffer().path();
        let mut active_file: Option<String> = None;
        let mut from_active = false;
        match active_path {
            Some(p) => {
                if path_starts_with(p.as_str(), workspace) {
                    active_file = Some(p.clone());
                    from_active = true;
                }
            },
            None => {},
        }
        if !from_active {
            match remembered_active {
                Some(r) => {
                    let mut k: usize = 0;
                    let mut found = false;
                    while k < open_files.len()
                        invariant
                            k <= open_files.len(),
                            !found ==> forall|j: int| 0 <= j < k ==> components(#[trigger] string_views(open_files@)[j]) != components(r@),
                            found ==> holds_path(string_views(open_files@), r@),
                        decreases open_files.len() - k,
                    {
                        if !found && paths_equal(open_files[k].as_str(), r) {
                            found = true;
                            proof {
                                assert(string_views(open_files@)[k as int] == open_files@[k as int]@);
                            }
                        }
                        proof {
                            assert(string_views(open_files@)[k as int] == open_files@[k as int]@);
                        }
                        k += 1;
                    }
                    if found {
                        active_file = Some(crate::text::to_owned_string(r));
                    }
                },
                None => {},
            }
        }
        let ghost dirs = string_views(expanded@);
        let ghost pred = |p: Seq<char>| starts_with_components(p, workspace@);
        let mut expanded_dirs: Vec<String> = Vec::new();
        let mut d: usize = 0;
        while d < expanded.len()
            invariant
                d <= expanded.len(),
                dirs == string_views(expanded@),
                pred == (|p: Seq<char>| starts_with_components(p, workspace@)),
                string_views(expanded_dirs@) == dirs.take(d as int).filter(pred),
            decreases expanded.len() - d,
        {
            proof {
                reveal(Seq::filter);
                assert(dirs.take(d + 1).drop_last() =~= dirs.take(d as int));
                assert(dirs.take(d + 1).last() == expanded@[d as int]@);
            }
            if path_starts_with(expanded[d].as_str(), workspace) {
                let ghost before = expanded_dirs@;
                expanded_dirs.push(expanded[d].clone());
                proof {
                    assert(string_views(expanded_dirs@) =~= string_views(before).push(expanded@[d as int]@));
                }
            }
            d += 1;
        }
        proof {
            assert(dirs.take(expanded.len() as int) =~= dirs);
        }
        WorkspaceSession {
            workspace_path: crate::text::to_owned_string(workspace),
            open_files,
            active_file,
            configuration_open,
            expanded_dirs,
        }
    }

    /// Whether some open document is saved at `path`.
    pub open spec fn is_open_at(&self, path: Seq<char>) -> bool {
        exists|j: int| 0 <= j < self.docs().len() && has_path(#[trigger] self.docs()[j], path)
    }

    /// The paths of `paths` that no open document is saved at, in order:
    /// what restoring a session still has to read.
    pub fn unopened_paths(&self, paths: &Vec<String>) -> (r: Vec<String>)
        ensures
            string_views(r@) == string_views(paths@).filter(|p: Seq<char>| !self.is_open_at(p)),
    {
        let ghost all = string_views(paths@);
        let ghost pred = |p: Seq<char>| !self.is_open_at(p);
        let mut out: Vec<String> = Vec::new();
        let mut i: usize = 0;
        while i < paths.len()
            invariant
                i <= paths.len(),
                all == string_views(paths@),
                pred == (|p: Seq<char>| !self.is_open_at(p)),
                string_views(out@) == all.take(i as int).filter(pred),
            decreases paths.len() - i,
        {
            proof {
                reveal(Seq::filter);
                assert(all.take(i + 1).drop_last() =~= all.take(i as int));
                assert(all.take(i + 1).last() == paths@[i as int]@);
            }
            let found = self.position_of_path(paths[i].as_str());
            if found.is_none() {
                let ghost before = out@;
                out.push(paths[i].clone());
                proof {
                    assert(string_views(out@) =~= string_views(before).push(paths@[i as int]@));
                }
            } else {
                proof {
                    let k = found->0 as int;
                    assert(has_path(self.docs()[k], paths@[i as int]@));
                }
            }
            i += 1;
        }
        proof {
            assert(all.take(paths.len() as int) =~= all);
        }
        out
    }

    /// The window title for the active document.
    pub fn window_title(&self) -> (r: String)
        requires
            self.wf(),
        ensures
            r@ == self.active_doc().window_title_view(),
    {
        self.documents[self.active].window_title()
    }
}

} // verus!
