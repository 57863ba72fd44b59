//! One open document: its buffer with the caret and undo state scoped to it,
//! and the editing commands that change them.

use vstd::prelude::*;
use vstd::string::StrSliceExecFns;

use crate::buffer::Buffer;
use crate::lines::{breaks_before, line_count, line_start};
use crate::paths::{file_name_of, path_file_name};
use crate::text::{char_is_whitespace, concat, is_whitespace, str_chars, string_from_chars, to_owned_string};
use crate::editor::{
    current_line_of, lemma_pushed_fits, lemma_trim_newlines_len, line_text, min_int,
    trim_newlines_end, visual_end_of, next_word_boundary_of, previous_word_boundary_of, replaced,
    CaretSnapshot, CaretState, EditHistory, EditTransaction,
};

verus! {

/// A document open in the editor.
pub struct OpenDocument {
    buffer: Buffer,
    caret_state: CaretState,
    edit_history: EditHistory,
    document_dirty: bool,
    edit_generation: u64,
    document_status: Option<String>,
    missing: bool,
    binary: bool,
}

/// The snapshot of a caret state.
pub open spec fn snapshot_of(c: CaretState) -> CaretSnapshot {
    CaretSnapshot { caret_char: c.caret(), anchor_char: c.anchor() }
}

/// What an editing key or menu item asks the document to do.
#[derive(Clone, Debug, PartialEq, Eq)]
pub enum EditorCommand {
    InsertText(String),
    Paste(String),
    InsertNewline,
    InsertTab,
    Backspace,
    Delete,
    DeleteWordBackward,
    DeleteWordForward,
    MoveLeft { selecting: bool },
    MoveRight { selecting: bool },
    MoveWordLeft { selecting: bool },
    MoveWordRight { selecting: bool },
    MoveUp { selecting: bool },
    MoveDown { selecting: bool },
    MoveHome { selecting: bool },
    MoveEnd { selecting: bool },
    SelectAll,
    Copy,
    Cut,
    Undo,
    Redo,
    Save,
    ToggleCommandPanel,
}

/// What running a command left for the caller to do.
#[derive(Clone, Debug, PartialEq, Eq)]
pub enum CommandOutcome {
    /// Put this text on the clipboard.
    Copy(String),
    /// Put this text on the clipboard; the document changed.
    Cut(String),
    /// Save the document.
    Save,
    /// The document changed.
    Changed,
    /// Nothing to do.
    Noop,
}

/// `Changed` when something changed, `Noop` otherwise.
pub open spec fn change_outcome(changed: bool, outcome: CommandOutcome) -> bool {
    if changed {
        outcome is Changed
    } else {
        outcome is Noop
    }
}

/// `Changed` when something changed, `Noop` otherwise.
fn outcome_of(changed: bool) -> (o: CommandOutcome)
    ensures
        change_outcome(changed, o),
{
    if changed {
        CommandOutcome::Changed
    } else {
        CommandOutcome::Noop
    }
}

/// Length of the run of spaces and tabs that starts `s`.
pub open spec fn indent_len(s: Seq<char>) -> nat
    decreases s.len(),
{
    if s.len() > 0 && (s[0] == ' ' || s[0] == '\t') {
        1 + indent_len(s.drop_first())
    } else {
        0
    }
}

/// `s` without its trailing whitespace.
pub open spec fn trim_whitespace_end(s: Seq<char>) -> Seq<char>
    decreases s.len(),
{
    if s.len() > 0 && is_whitespace(s.last()) {
        trim_whitespace_end(s.drop_last())
    } else {
        s
    }
}

/// `s` without its trailing tabs.
pub open spec fn trim_tabs_end(s: Seq<char>) -> Seq<char>
    decreases s.len(),
{
    if s.len() > 0 && s.last() == '\t' {
        trim_tabs_end(s.drop_last())
    } else {
        s
    }
}

/// One indentation step: four spaces.
pub open spec fn indent_unit() -> Seq<char> {
    seq![' ', ' ', ' ', ' ']
}

/// `s` ends with one indentation step.
pub open spec fn ends_with_indent_unit(s: Seq<char>) -> bool {
    s.len() >= 4 && s.subrange(s.len() - 4, s.len() as int) == indent_unit()
}

/// `s` without its trailing indentation steps.
pub open spec fn trim_indent_units_end(s: Seq<char>) -> Seq<char>
    decreases s.len(),
{
    if ends_with_indent_unit(s) {
        trim_indent_units_end(s.take(s.len() - 4))
    } else {
        s
    }
}

/// What Enter inserts at `caret`: a newline plus the indentation of the
/// line the caret's previous character is on, one step deeper after a line
/// ending in `{`, one step shallower on a line starting with `}`.
pub open spec fn newline_indentation(s: Seq<char>, caret: int) -> Seq<char> {
    if s.len() == 0 {
        seq!['\n']
    } else {
        let probe = if caret == 0 {
            0
        } else {
            min_int(caret - 1, s.len() - 1)
        };
        let content = trim_newlines_end(line_text(s, breaks_before(s, probe)));
        let leading = content.take(indent_len(content) as int);
        let trimmed = trim_whitespace_end(content);
        if trimmed.len() > 0 && trimmed.last() == '{' {
            seq!['\n'] + leading + indent_unit()
        } else if trimmed.len() > 0 && trimmed[0] == '}' {
            let dedented = if leading.len() > 0 && leading.last() == '\t' {
                trim_tabs_end(leading)
            } else if ends_with_indent_unit(leading) {
                trim_indent_units_end(leading)
            } else {
                Seq::<char>::empty()
            };
            seq!['\n'] + dedented
        } else {
            seq!['\n'] + leading
        }
    }
}

/// Append `chars[from..to]` to `out`.
fn push_range(out: &mut Vec<char>, chars: &Vec<char>, from: usize, to: usize)
    requires
        from <= to <= chars.len(),
    ensures
        final(out)@ == old(out)@ + chars@.subrange(from as int, to as int),
{
    let mut i = from;
    while i < to
        invariant
            from <= i <= to <= chars.len(),
            out@ == old(out)@ + chars@.subrange(from as int, i as int),
        decreases to - i,
    {
        out.push(chars[i]);
        proof {
            assert(chars@.subrange(from as int, i + 1) == chars@.subrange(from as int, i as int).push(
                chars@[i as int],
            ));
        }
        i += 1;
    }
}

/// Length of `chars` without its trailing `\n`/`\r`.
fn trimmed_chars_len(chars: &Vec<char>) -> (n: usize)
    ensures
        n == trim_newlines_end(chars@).len(),
        n <= chars.len(),
        trim_newlines_end(chars@) == chars@.take(n as int),
{
    proof {
        lemma_trim_newlines_len(chars@);
    }
    let mut n = chars.len();
    proof {
        assert(chars@.take(n as int) == chars@);
    }
    while n > 0 && (chars[n - 1] == '\n' || chars[n - 1] == '\r')
        invariant
            n <= chars.len(),
            trim_newlines_end(chars@.take(n as int)) == trim_newlines_end(chars@),
        decreases n,
    {
        proof {
            assert(chars@.take(n as int).drop_last() == chars@.take(n - 1));
        }
        n -= 1;
    }
    n
}

/// Length of the run of spaces and tabs that starts `chars[..limit]`.
fn indent_prefix_len(chars: &Vec<char>, limit: usize) -> (n: usize)
    requires
        limit <= chars.len(),
    ensures
        n == indent_len(chars@.take(limit as int)),
        n <= limit,
{
    let ghost x = chars@.take(limit as int);
    let mut i: usize = 0;
    proof {
        assert(x.skip(0) == x);
    }
    while i < limit && (chars[i] == ' ' || chars[i] == '\t')
        invariant
            i <= limit <= chars.len(),
            x == chars@.take(limit as int),
            indent_len(x) == i + indent_len(x.skip(i as int)),
        decreases limit - i,
    {
        proof {
            assert(x.skip(i as int).drop_first() == x.skip(i + 1));
        }
        i += 1;
    }
    i
}

/// Length of `chars[..limit]` without its trailing whitespace.
fn trimmed_whitespace_len(chars: &Vec<char>, limit: usize) -> (n: usize)
    requires
        limit <= chars.len(),
    ensures
        trim_whitespace_end(chars@.take(limit as int)) == chars@.take(n as int),
        n <= limit,
{
    let mut n = limit;
    loop
        invariant
            n <= limit <= chars.len(),
            trim_whitespace_end(chars@.take(limit as int)) == trim_whitespace_end(
                chars@.take(n as int),
            ),
        ensures
            n <= limit,
            trim_whitespace_end(chars@.take(limit as int)) == chars@.take(n as int),
        decreases n,
    {
        if n == 0 {
            break;
        }
        if !char_is_whitespace(chars[n - 1]) {
            break;
        }
        proof {
            assert(chars@.take(n as int).drop_last() == chars@.take(n - 1));
        }
        n -= 1;
    }
    n
}

/// Where the trailing tabs of `chars[..limit]` start.
fn trailing_tabs_start(chars: &Vec<char>, limit: usize) -> (n: usize)
    requires
        limit <= chars.len(),
    ensures
        trim_tabs_end(chars@.take(limit as int)) == chars@.take(n as int),
        n <= limit,
{
    let mut n = limit;
    while n > 0 && chars[n - 1] == '\t'
        invariant
            n <= limit <= chars.len(),
            trim_tabs_end(chars@.take(limit as int)) == trim_tabs_end(chars@.take(n as int)),
        decreases n,
    {
        proof {
            assert(chars@.take(n as int).drop_last() == chars@.take(n - 1));
        }
        n -= 1;
    }
    n
}

/// Whether `chars[..limit]` ends with four spaces.
fn ends_with_unit(chars: &Vec<char>, limit: usize) -> (b: bool)
    requires
        limit <= chars.len(),
    ensures
        b == ends_with_indent_unit(chars@.take(limit as int)),
{
    let b = limit >= 4 && chars[limit - 4] == ' ' && chars[limit - 3] == ' ' && chars[limit - 2]
        == ' ' && chars[limit - 1] == ' ';
    proof {
        let x = chars@.take(limit as int);
        if limit >= 4 {
            if b {
                assert(x.subrange(x.len() - 4, x.len() as int) =~= indent_unit());
            } else {
                let t = x.subrange(x.len() - 4, x.len() as int);
                if t == indent_unit() {
                    assert(t[0] == ' ' && t[1] == ' ' && t[2] == ' ' && t[3] == ' ');
                }
            }
        }
    }
    b
}

/// Where the trailing indentation steps of `chars[..limit]` start.
fn trailing_units_start(chars: &Vec<char>, limit: usize) -> (n: usize)
    requires
        limit <= chars.len(),
    ensures
        trim_indent_units_end(chars@.take(limit as int)) == chars@.take(n as int),
        n <= limit,
{
    let mut n = limit;
    while ends_with_unit(chars, n)
        invariant
            n <= limit <= chars.len(),
            trim_indent_units_end(chars@.take(limit as int)) == trim_indent_units_end(
                chars@.take(n as int),
            ),
        decreases n,
    {
        proof {
            assert(chars@.take(n as int).take(n - 4) == chars@.take(n - 4));
        }
        n -= 4;
    }
    n
}

/// What applying formatter output `result`, produced for edit counter
/// `generation`, does to a document: `before` becomes `after`, and
/// `changed` says whether the text changed. A stale result changes nothing;
/// an error only sets the status; output equal to the text only says
/// "Already formatted"; other output replaces the text in one undoable step,
/// keeps the caret (clamped), clears the selection, leaves the document
/// clean when the format ran as part of a save, and says "Formatted".
pub open spec fn format_applied(
    before: OpenDocument,
    after: OpenDocument,
    generation: u64,
    from_save: bool,
    result: Result<String, String>,
    changed: bool,
) -> bool {
    &&& (before.generation() != generation ==> !changed && after == before)
    &&& (before.generation() == generation ==> (result matches Err(e) ==> {
        &&& !changed
        &&& after.status() == Some("Format failed: "@ + e@)
        &&& after.doc_buffer() == before.doc_buffer()
        &&& after.doc_caret() == before.doc_caret()
        &&& after.doc_history() == before.doc_history()
        &&& after.dirty() == before.dirty()
        &&& after.generation() == before.generation()
    }))
    &&& (before.generation() == generation ==> (result matches Ok(formatted) ==> (formatted@
        == before.text() ==> {
        &&& !changed
        &&& after.status() == Some("Already formatted"@)
        &&& after.doc_buffer() == before.doc_buffer()
        &&& after.doc_caret() == before.doc_caret()
        &&& after.doc_history() == before.doc_history()
        &&& after.dirty() == before.dirty()
        &&& after.generation() == before.generation()
    })))
    &&& (before.generation() == generation ==> (result matches Ok(formatted) ==> (formatted@
        != before.text() ==> {
        &&& changed
        &&& after.text() == formatted@
        &&& after.doc_buffer().path_view() == before.doc_buffer().path_view()
        &&& after.doc_caret().caret() == min_int(
            before.doc_caret().caret() as int,
            formatted@.len() as int,
        )
        &&& after.doc_caret().anchor() is None
        &&& after.dirty() == !from_save
        &&& after.generation() == before.generation() + 1
        &&& after.status() == Some("Formatted"@)
    })))
    &&& (before.generation() == generation ==> (result matches Ok(formatted) ==> (formatted@
        != before.text() ==> exists|t: EditTransaction|
        {
            &&& t.start_char == 0
            &&& t.deleted_text@ == before.text()
            &&& t.inserted_text@ == formatted@
            &&& #[trigger] EditHistory::pushed(before.doc_history(), t, after.doc_history())
        })))
}

impl OpenDocument {
    /// The buffer.
    pub closed spec fn doc_buffer(&self) -> Buffer {
        self.buffer
    }

    /// The caret state.
    pub closed spec fn doc_caret(&self) -> CaretState {
        self.caret_state
    }

    /// The undo history.
    pub closed spec fn doc_history(&self) -> EditHistory {
        self.edit_history
    }

    /// Whether there are unsaved edits.
    pub closed spec fn dirty(&self) -> bool {
        self.document_dirty
    }

    /// Counter of edits, bumped on every change.
    pub closed spec fn generation(&self) -> u64 {
        self.edit_generation
    }

    /// Status line text.
    pub closed spec fn status(&self) -> Option<Seq<char>> {
        match self.document_status {
            Some(s) => Some(s@),
            None => None,
        }
    }

    /// The file behind the document is gone from disk.
    pub closed spec fn missing(&self) -> bool {
        self.missing
    }

    /// The file behind the document is not text; it is shown, not edited.
    pub closed spec fn binary(&self) -> bool {
        self.binary
    }

    /// The text.
    pub open spec fn text(&self) -> Seq<char> {
        self.doc_buffer()@
    }

    /// The undo history can run on the buffer, and caret and anchor lie
    /// within it.
    pub open spec fn wf(&self) -> bool {
        &&& self.doc_history().fits(self.text().len() as int)
        &&& self.doc_caret().caret() <= self.text().len()
        &&& self.doc_caret().anchor() matches Some(a) ==> a <= self.text().len()
    }

    /// An empty untitled document.
    pub fn new_empty() -> (d: Self)
        ensures
            d.wf(),
            d.text() == Seq::<char>::empty(),
            d.doc_buffer().path_view() is None,
            d.doc_caret().caret() == 0,
            d.doc_caret().anchor() is None,
            d.doc_history().undo_stack().len() == 0,
            d.doc_history().redo_stack().len() == 0,
            !d.dirty(),
            d.generation() == 0,
            d.status() is None,
            !d.missing(),
            !d.binary(),
    {
        OpenDocument {
            buffer: Buffer::new(),
            caret_state: CaretState::default(),
            edit_history: EditHistory::default(),
            document_dirty: false,
            edit_generation: 0,
            document_status: None,
            missing: false,
            binary: false,
        }
    }

    /// A document showing `buffer`, caret at its end.
    pub fn from_buffer(buffer: Buffer) -> (d: Self)
        ensures
            d.wf(),
            d.doc_buffer() == buffer,
            d.doc_caret().caret() == buffer@.len(),
            d.doc_caret().anchor() is None,
            d.doc_history().undo_stack().len() == 0,
            d.doc_history().redo_stack().len() == 0,
            !d.dirty(),
            d.generation() == 0,
            d.status() is None,
            !d.missing(),
            !d.binary(),
    {
        let mut doc = OpenDocument {
            buffer,
            caret_state: CaretState::default(),
            edit_history: EditHistory::default(),
            document_dirty: false,
            edit_generation: 0,
            document_status: None,
            missing: false,
            binary: false,
        };
        doc.caret_state.reset_to_buffer_end(&doc.buffer);
        doc
    }

    /// Whether the file behind the document is gone from disk.
    pub fn is_missing(&self) -> (b: bool)
        ensures
            b == self.missing(),
    {
        self.missing
    }

    /// Whether the file behind the document is not text.
    pub fn is_binary(&self) -> (b: bool)
        ensures
            b == self.binary(),
    {
        self.binary
    }

    /// Record whether the file behind the document is gone from disk.
    pub fn set_missing(&mut self, missing: bool)
        ensures
            final(self).missing() == missing,
            final(self).binary() == old(self).binary(),
            final(self).doc_buffer() == old(self).doc_buffer(),
            final(self).doc_caret() == old(self).doc_caret(),
            final(self).doc_history() == old(self).doc_history(),
            final(self).dirty() == old(self).dirty(),
            final(self).generation() == old(self).generation(),
            final(self).status() == old(self).status(),
    {
        self.missing = missing;
    }

    /// Record whether the file behind the document is not text.
    pub fn set_binary(&mut self, binary: bool)
        ensures
            final(self).binary() == binary,
            final(self).missing() == old(self).missing(),
            final(self).doc_buffer() == old(self).doc_buffer(),
            final(self).doc_caret() == old(self).doc_caret(),
            final(self).doc_history() == old(self).doc_history(),
            final(self).dirty() == old(self).dirty(),
            final(self).generation() == old(self).generation(),
            final(self).status() == old(self).status(),
    {
        self.binary = binary;
    }

    /// The buffer.
    pub fn buffer(&self) -> (b: &Buffer)
        ensures
            *b == self.doc_buffer(),
    {
        &self.buffer
    }

    /// The caret state.
    pub fn caret_state(&self) -> (c: &CaretState)
        ensures
            *c == self.doc_caret(),
    {
        &self.caret_state
    }

    /// The undo history.
    pub fn edit_history(&self) -> (h: &EditHistory)
        ensures
            *h == self.doc_history(),
    {
        &self.edit_history
    }

    /// Whether there are unsaved edits.
    pub fn is_dirty(&self) -> (b: bool)
        ensures
            b == self.dirty(),
    {
        self.document_dirty
    }

    /// Counter of edits.
    pub fn edit_generation(&self) -> (g: u64)
        ensures
            g == self.generation(),
    {
        self.edit_generation
    }

    /// Status line text.
    pub fn document_status(&self) -> (s: Option<&String>)
        ensures
            match s {
                Some(s) => self.status() == Some(s@),
                None => self.status() is None,
            },
    {
        self.document_status.as_ref()
    }

    /// Set the status line text.
    pub fn set_status(&mut self, status: &str)
        ensures
            final(self).status() == Some(status@),
            final(self).doc_buffer() == old(self).doc_buffer(),
            final(self).doc_caret() == old(self).doc_caret(),
            final(self).doc_history() == old(self).doc_history(),
            final(self).dirty() == old(self).dirty(),
            final(self).generation() == old(self).generation(),
    {
        self.document_status = Some(status.to_string());
    }

    /// Give the document a path (save-as).
    pub fn set_path(&mut self, path: &str)
        ensures
            final(self).text() == old(self).text(),
            final(self).doc_buffer().path_view() == Some(path@),
            final(self).doc_caret() == old(self).doc_caret(),
            final(self).doc_history() == old(self).doc_history(),
            final(self).dirty() == old(self).dirty(),
            final(self).generation() == old(self).generation(),
            final(self).status() == old(self).status(),
            final(self).missing() == old(self).missing(),
            final(self).binary() == old(self).binary(),
    {
        self.buffer.set_path(path);
    }

    /// The tab title: the file name, or "Untitled" for a document without
    /// one.
    pub open spec fn title_view(&self) -> Seq<char> {
        match self.doc_buffer().path_view() {
            Some(path) => match file_name_of(path) {
                Some(name) => name,
                None => "Untitled"@,
            },
            None => "Untitled"@,
        }
    }

    /// The tab title: the file name, or "Untitled".
    pub fn title(&self) -> (r: String)
        ensures
            r@ == self.title_view(),
    {
        match self.buffer.path() {
            Some(path) => match path_file_name(path.as_str()) {
                Some(name) => name,
                None => to_owned_string("Untitled"),
            },
            None => to_owned_string("Untitled"),
        }
    }

    /// The window title for this document: "lux - " and the path (marked
    /// "* " while dirty), "lux - * Untitled" for a dirty document without a
    /// path, and "lux" otherwise.
    pub open spec fn window_title_view(&self) -> Seq<char> {
        match self.doc_buffer().path_view() {
            Some(path) => "lux - "@ + (if self.dirty() {
                "* "@
            } else {
                ""@
            }) + path,
            None => if self.dirty() {
                "lux - * Untitled"@
            } else {
                "lux"@
            },
        }
    }

    /// The window title for this document.
    pub fn window_title(&self) -> (r: String)
        ensures
            r@ == self.window_title_view(),
    {
        match self.buffer.path() {
            Some(path) => {
                let prefix = if self.document_dirty {
                    "lux - * "
                } else {
                    "lux - "
                };
                let r = concat(prefix, path.as_str());
                proof {
                    reveal_strlit("lux - * ");
                    reveal_strlit("lux - ");
                    reveal_strlit("* ");
                    reveal_strlit("");
                    if self.document_dirty {
                        assert("lux - * "@ =~= "lux - "@ + "* "@);
                    } else {
                        assert("lux - "@ =~= "lux - "@ + ""@);
                    }
                }
                r
            },
            None => if self.document_dirty {
                to_owned_string("lux - * Untitled")
            } else {
                to_owned_string("lux")
            },
        }
    }

    /// Record how a save of this document ended. A save that went through
    /// clears the dirty mark only if no edit came after the text it wrote
    /// (`generation` is the edit counter when the save started), and says
    /// "Saved" and the path; a failed save says so and keeps the mark.
    pub fn on_saved(&mut self, path: &str, generation: u64, ok: bool)
        ensures
            final(self).doc_buffer() == old(self).doc_buffer(),
            final(self).doc_caret() == old(self).doc_caret(),
            final(self).doc_history() == old(self).doc_history(),
            final(self).generation() == old(self).generation(),
            final(self).dirty() == (old(self).dirty() && !(ok && generation == old(self).generation())),
            final(self).status() == Some(if ok {
                "Saved "@ + path@
            } else {
                "Failed to save file"@
            }),
    {
        if ok {
            if self.edit_generation == generation {
                self.document_dirty = false;
            }
            self.document_status = Some(concat("Saved ", path));
        } else {
            self.document_status = Some(to_owned_string("Failed to save file"));
        }
    }

    /// Apply what the external formatter made of the text, if no edit came
    /// since the text was handed to it (`generation` is the edit counter
    /// then). Formatted text equal to the buffer only says "Already
    /// formatted". Otherwise the text is replaced in one undoable step, the
    /// caret stays where it was (clamped to the new text), the status says
    /// "Formatted", and a format that ran as part of a save leaves the
    /// document clean. A formatter error is shown as the status. Returns
    /// whether the text changed.
    pub fn apply_format_result(&mut self, generation: u64, from_save: bool, result: Result<String, String>) -> (changed: bool)
        requires
            old(self).wf(),
            old(self).generation() < u64::MAX,
        ensures
            final(self).wf(),
            format_applied(*old(self), *final(self), generation, from_save, result, changed),
    {
        if self.edit_generation != generation {
            return false;
        }
        match result {
            Err(e) => {
                let message = concat("Format failed: ", e.as_str());
                proof {
                    assert(message@ == "Format failed: "@ + e@);
                }
                self.document_status = Some(message);
                proof {
                    assert(self.status() == Some("Format failed: "@ + e@));
                }
                false
            },
            Ok(formatted) => {
                let current = self.buffer.text_string();
                if crate::text::str_equal(formatted.as_str(), current.as_str()) {
                    self.document_status = Some(to_owned_string("Already formatted"));
                    return false;
                }
                let caret = self.caret_state.caret_char();
                let total = self.buffer.len_chars();
                let ghost before = *self;
                proof {
                    if total == 0 {
                        assert(self.caret_state.selection() matches Some((s, e)) ==> s == 0 && e == 0);
                    }
                }
                let changed = self.apply_edit(0, total, formatted.as_str());
                proof {
                    if total > 0 {
                        assert(before.edit_range(0, total as int) == (0int, total as int));
                        assert(before.text().subrange(0, total as int) =~= before.text());
                    } else if formatted@.len() == 0 {
                        assert(formatted@ =~= before.text());
                    }
                }
                let ghost mid = *self;
                let len = self.buffer.len_chars();
                let clamped = if caret < len {
                    caret
                } else {
                    len
                };
                self.caret_state.set_caret_char(clamped, &self.buffer, false);
                if from_save {
                    self.document_dirty = false;
                }
                self.document_status = Some(to_owned_string("Formatted"));
                proof {
                    let (s0, e0) = before.edit_range(0, total as int);
                    assert(s0 == 0);
                    assert(before.text().subrange(s0, e0) =~= before.text());
                    let t = choose|t: EditTransaction|
                        {
                            &&& t.start_char == s0
                            &&& t.deleted_text@ == before.text().subrange(s0, e0)
                            &&& t.inserted_text@ == formatted@
                            &&& t.before == snapshot_of(before.doc_caret())
                            &&& t.after == CaretSnapshot {
                                caret_char: (s0 + formatted@.len()) as usize,
                                anchor_char: None,
                            }
                            &&& #[trigger] EditHistory::pushed(before.doc_history(), t, mid.doc_history())
                        };
                    assert(self.doc_history() == mid.doc_history());
                    assert(EditHistory::pushed(before.doc_history(), t, self.doc_history()));
                }
                changed
            },
        }
    }

    /// Where a save writes: the document's path. A document whose file is
    /// gone, a binary one, and an untitled one (no path chosen) are not
    /// saved, and the status says why.
    pub fn begin_save(&mut self) -> (target: Option<String>)
        ensures
            (old(self).missing() || old(self).binary() || old(self).doc_buffer().path_view() is None) ==> {
                &&& target is None
                &&& final(self).status() == Some(
                    if old(self).missing() {
                        "File not found — nothing to save"@
                    } else if old(self).binary() {
                        "Binary file — not editable"@
                    } else {
                        "Save cancelled"@
                    },
                )
                &&& final(self).doc_buffer() == old(self).doc_buffer()
                &&& final(self).doc_caret() == old(self).doc_caret()
                &&& final(self).doc_history() == old(self).doc_history()
                &&& final(self).dirty() == old(self).dirty()
                &&& final(self).generation() == old(self).generation()
                &&& final(self).missing() == old(self).missing()
                &&& final(self).binary() == old(self).binary()
            },
            !old(self).missing() && !old(self).binary() ==> (old(self).doc_buffer().path_view() matches Some(p) ==> (
            target matches Some(t) && t@ == p && *final(self) == *old(self))),
    {
        if self.missing {
            self.document_status = Some(to_owned_string("File not found — nothing to save"));
            return None;
        }
        if self.binary {
            self.document_status = Some(to_owned_string("Binary file — not editable"));
            return None;
        }
        match self.buffer.path() {
            Some(p) => Some(p.clone()),
            None => {
                self.document_status = Some(to_owned_string("Save cancelled"));
                None
            },
        }
    }

    /// Start formatting with `formatter`: a document whose file is gone or
    /// is binary has nothing to format; without a formatter set the status
    /// says so and nothing starts; otherwise the status says "Formatting…".
    /// Returns whether formatting starts.
    pub fn begin_formatting(&mut self, formatter: &crate::config::FormatterSettings) -> (started: bool)
        ensures
            started == (!old(self).missing() && !old(self).binary() && crate::rank::trimmed(
                formatter.command@,
            ).len() > 0),
            final(self).status() == Some(
                if old(self).missing() || old(self).binary() {
                    "Nothing to format here"@
                } else if started {
                    "Formatting…"@
                } else {
                    "No formatter configured"@
                },
            ),
            final(self).missing() == old(self).missing(),
            final(self).binary() == old(self).binary(),
            final(self).doc_buffer() == old(self).doc_buffer(),
            final(self).doc_caret() == old(self).doc_caret(),
            final(self).doc_history() == old(self).doc_history(),
            final(self).dirty() == old(self).dirty(),
            final(self).generation() == old(self).generation(),
    {
        if self.missing || self.binary {
            self.document_status = Some(to_owned_string("Nothing to format here"));
            return false;
        }
        if !formatter.is_configured() {
            self.document_status = Some(to_owned_string("No formatter configured"));
            return false;
        }
        self.document_status = Some(to_owned_string("Formatting…"));
        true
    }

    /// Caret at the end of the buffer and an empty history.
    pub fn reset_editor_state(&mut self)
        ensures
            final(self).wf(),
            final(self).doc_buffer() == old(self).doc_buffer(),
            final(self).doc_caret().caret() == old(self).text().len(),
            final(self).doc_caret().anchor() is None,
            final(self).doc_history().undo_stack().len() == 0,
            final(self).doc_history().redo_stack().len() == 0,
            final(self).dirty() == old(self).dirty(),
            final(self).generation() == old(self).generation(),
            final(self).status() == old(self).status(),
    {
        self.caret_state.reset_to_buffer_end(&self.buffer);
        self.edit_history.clear();
    }

    /// Record that an edit happened: dirty, one generation later,
    /// "Modified".
    fn mark_document_dirty(&mut self)
        requires
            old(self).generation() < u64::MAX,
        ensures
            final(self).dirty(),
            final(self).generation() == old(self).generation() + 1,
            final(self).status() == Some("Modified"@),
            final(self).doc_buffer() == old(self).doc_buffer(),
            final(self).doc_caret() == old(self).doc_caret(),
            final(self).doc_history() == old(self).doc_history(),
    {
        self.document_dirty = true;
        self.edit_generation = self.edit_generation + 1;
        self.document_status = Some("Modified".to_string());
    }

    /// The range an edit of `start..end` acts on: a collapsed range with a
    /// selection replaces the selection; both ends clamped to the text, the
    /// end no earlier than the start.
    pub open spec fn edit_range(&self, start: int, end: int) -> (int, int) {
        let (s0, e0) = if start == end {
            match self.doc_caret().selection() {
                Some((a, b)) => (a, b),
                None => (start, end),
            }
        } else {
            (start, end)
        };
        let len = self.text().len() as int;
        let s1 = min_int(s0, len);
        let e1 = min_int(e0, len);
        (s1, if e1 < s1 {
            s1
        } else {
            e1
        })
    }

    /// `after` is `self` with `start..end` replaced by `inserted`, as
    /// `apply_edit` does it; `changed` tells whether anything happened.
    pub open spec fn edited(
        &self,
        start: int,
        end: int,
        inserted: Seq<char>,
        after: OpenDocument,
        changed: bool,
    ) -> bool {
        let (s, e) = self.edit_range(start, end);
        let deleted = self.text().subrange(s, e);
        if deleted.len() == 0 && inserted.len() == 0 {
            &&& !changed
            &&& after == *self
        } else {
            &&& changed
            &&& after.text() == replaced(self.text(), s, e - s, inserted)
            &&& after.doc_buffer().path_view() == self.doc_buffer().path_view()
            &&& after.doc_caret().caret() == s + inserted.len()
            &&& after.doc_caret().anchor() is None
            &&& after.doc_caret().preferred() is None
            &&& exists|t: EditTransaction|
                {
                    &&& t.start_char == s
                    &&& t.deleted_text@ == deleted
                    &&& t.inserted_text@ == inserted
                    &&& t.before == snapshot_of(self.doc_caret())
                    &&& t.after == CaretSnapshot {
                        caret_char: (s + inserted.len()) as usize,
                        anchor_char: None,
                    }
                    &&& #[trigger] EditHistory::pushed(self.doc_history(), t, after.doc_history())
                }
            &&& after.dirty()
            &&& after.generation() == self.generation() + 1
            &&& after.status() == Some("Modified"@)
        }
    }

    /// Replace `start..end` by `inserted_text` and record it for undo; a
    /// collapsed range with a selection replaces the selection. The caret
    /// lands after the inserted text with no selection. Returns whether
    /// anything changed (nothing does when nothing is deleted or inserted).
    pub fn apply_edit(&mut self, start: usize, end: usize, inserted_text: &str) -> (changed: bool)
        requires
            old(self).wf(),
            old(self).generation() < u64::MAX,
        ensures
            final(self).wf(),
            old(self).edited(start as int, end as int, inserted_text@, *final(self), changed),
    {
        let total_chars = self.buffer.len_chars();
        let (start, end) = if start == end {
            match self.caret_state.selection_range() {
                Some(range) => (range.start, range.end),
                None => (start, end),
            }
        } else {
            (start, end)
        };
        let start = if start < total_chars {
            start
        } else {
            total_chars
        };
        let end = if end < total_chars {
            end
        } else {
            total_chars
        };
        let end = if end < start {
            start
        } else {
            end
        };
        let deleted_text = self.buffer.slice_string(start, end);
        if deleted_text.as_str().is_empty() && inserted_text.is_empty() {
            return false;
        }
        let before = self.caret_state.snapshot();
        let ghost old_text = self.buffer@;
        if end > start {
            self.buffer.remove(start..end);
        }
        if !inserted_text.is_empty() {
            self.buffer.insert(start, inserted_text);
        }
        proof {
            assert(self.buffer@ == replaced(
                old_text,
                start as int,
                end - start,
                inserted_text@,
            ));
        }
        let new_total = self.buffer.len_chars();
        let inserted_len = inserted_text.unicode_len();
        let next_caret = start + inserted_len;
        self.caret_state.set_caret_char(next_caret, &self.buffer, false);
        self.caret_state.clear_selection();
        self.caret_state.clear_preferred_column();
        let after = self.caret_state.snapshot();
        let transaction = EditTransaction {
            start_char: start,
            deleted_text,
            inserted_text: inserted_text.to_string(),
            before,
            after,
        };
        let ghost old_history = self.edit_history;
        self.edit_history.push(transaction);
        proof {
            lemma_pushed_fits(old_history, transaction, self.edit_history, old_text.len() as int);
        }
        self.mark_document_dirty();
        true
    }

    /// The selected text, if anything is selected.
    pub fn selected_text(&self) -> (t: Option<String>)
        requires
            self.wf(),
        ensures
            match self.doc_caret().selection() {
                Some((s, e)) => (t matches Some(t) && t@ == self.text().subrange(s, e)),
                None => t is None,
            },
    {
        let range = match self.caret_state.selection_range() {
            Some(r) => r,
            None => return None,
        };
        Some(self.buffer.slice_string(range.start, range.end))
    }

    /// Type or paste `text`: it replaces the selection, or is inserted at the
    /// caret.
    pub fn insert_or_replace_selection(&mut self, text: &str) -> (changed: bool)
        requires
            old(self).wf(),
            old(self).generation() < u64::MAX,
        ensures
            final(self).wf(),
            match old(self).doc_caret().selection() {
                Some((s, e)) => old(self).edited(s, e, text@, *final(self), changed),
                None => old(self).edited(
                    old(self).doc_caret().caret() as int,
                    old(self).doc_caret().caret() as int,
                    text@,
                    *final(self),
                    changed,
                ),
            },
    {
        if let Some(range) = self.caret_state.selection_range() {
            return self.apply_edit(range.start, range.end, text);
        }
        let caret = self.caret_state.caret_char();
        self.apply_edit(caret, caret, text)
    }

    /// Delete the selection; `false`, with nothing changed, without one.
    pub fn delete_selection(&mut self) -> (changed: bool)
        requires
            old(self).wf(),
            old(self).generation() < u64::MAX,
        ensures
            final(self).wf(),
            match old(self).doc_caret().selection() {
                Some((s, e)) => old(self).edited(s, e, Seq::<char>::empty(), *final(self), changed),
                None => !changed && *final(self) == *old(self),
            },
    {
        let range = match self.caret_state.selection_range() {
            Some(r) => r,
            None => return false,
        };
        proof {
            reveal_strlit("");
            assert(""@ =~= Seq::<char>::empty());
        }
        self.apply_edit(range.start, range.end, "")
    }

    /// The document after a deletion command: the selection goes if there is
    /// one; otherwise `start..end` when `possible`, and nothing when not.
    pub open spec fn deleted_by(
        &self,
        possible: bool,
        start: int,
        end: int,
        after: OpenDocument,
        changed: bool,
    ) -> bool {
        match self.doc_caret().selection() {
            Some((s, e)) => self.edited(s, e, Seq::<char>::empty(), after, changed),
            None => if possible {
                self.edited(start, end, Seq::<char>::empty(), after, changed)
            } else {
                !changed && after == *self
            },
        }
    }

    /// Backspace: the selection, or the character before the caret.
    pub fn delete_backward(&mut self) -> (changed: bool)
        requires
            old(self).wf(),
            old(self).generation() < u64::MAX,
        ensures
            final(self).wf(),
            old(self).deleted_by(
                old(self).doc_caret().caret() > 0,
                old(self).doc_caret().caret() - 1,
                old(self).doc_caret().caret() as int,
                *final(self),
                changed,
            ),
    {
        if self.caret_state.selection_range().is_some() {
            return self.delete_selection();
        }
        let caret = self.caret_state.caret_char();
        if caret == 0 {
            return false;
        }
        proof {
            reveal_strlit("");
            assert(""@ =~= Seq::<char>::empty());
        }
        self.apply_edit(caret - 1, caret, "")
    }

    /// Delete back to the previous word boundary (or the selection).
    pub fn delete_word_backward(&mut self) -> (changed: bool)
        requires
            old(self).wf(),
            old(self).generation() < u64::MAX,
        ensures
            final(self).wf(),
            old(self).deleted_by(
                old(self).doc_caret().caret() > 0,
                previous_word_boundary_of(old(self).text(), old(self).doc_caret().caret() as int),
                old(self).doc_caret().caret() as int,
                *final(self),
                changed,
            ),
    {
        if self.caret_state.selection_range().is_some() {
            return self.delete_selection();
        }
        let caret = self.caret_state.caret_char();
        if caret == 0 {
            return false;
        }
        let start = self.caret_state.previous_word_boundary(&self.buffer);
        proof {
            reveal_strlit("");
            assert(""@ =~= Seq::<char>::empty());
        }
        self.apply_edit(start, caret, "")
    }

    /// Delete: the selection, or the character after the caret.
    pub fn delete_forward(&mut self) -> (changed: bool)
        requires
            old(self).wf(),
            old(self).generation() < u64::MAX,
        ensures
            final(self).wf(),
            old(self).deleted_by(
                old(self).doc_caret().caret() < old(self).text().len(),
                old(self).doc_caret().caret() as int,
                old(self).doc_caret().caret() + 1,
                *final(self),
                changed,
            ),
    {
        if self.caret_state.selection_range().is_some() {
            return self.delete_selection();
        }
        let caret = self.caret_state.caret_char();
        let total_chars = self.buffer.len_chars();
        if caret >= total_chars {
            return false;
        }
        proof {
            reveal_strlit("");
            assert(""@ =~= Seq::<char>::empty());
        }
        self.apply_edit(caret, caret + 1, "")
    }

    /// Delete forward to the next word boundary (or the selection).
    pub fn delete_word_forward(&mut self) -> (changed: bool)
        requires
            old(self).wf(),
            old(self).generation() < u64::MAX,
        ensures
            final(self).wf(),
            old(self).deleted_by(
                old(self).doc_caret().caret() < old(self).text().len(),
                old(self).doc_caret().caret() as int,
                next_word_boundary_of(old(self).text(), old(self).doc_caret().caret() as int),
                *final(self),
                changed,
            ),
    {
        if self.caret_state.selection_range().is_some() {
            return self.delete_selection();
        }
        let caret = self.caret_state.caret_char();
        let total_chars = self.buffer.len_chars();
        if caret >= total_chars {
            return false;
        }
        let end = self.caret_state.next_word_boundary(&self.buffer);
        proof {
            reveal_strlit("");
            assert(""@ =~= Seq::<char>::empty());
        }
        self.apply_edit(caret, end, "")
    }

    /// The document after undo (`is_undo`) or redo: the text, stacks and the
    /// restored caret as `EditHistory` and `CaretState::restore` give them,
    /// and the edit marked; or nothing when there is no step.
    pub open spec fn replayed(&self, is_undo: bool, after: OpenDocument, changed: bool) -> bool {
        let stack = if is_undo {
            self.doc_history().undo_stack()
        } else {
            self.doc_history().redo_stack()
        };
        if stack.len() == 0 {
            !changed && after == *self
        } else {
            let t = stack.last();
            let snap = if is_undo {
                t.before
            } else {
                t.after
            };
            &&& changed
            &&& after.text() == if is_undo {
                crate::editor::unapplied(self.text(), t)
            } else {
                crate::editor::applied(self.text(), t)
            }
            &&& after.doc_buffer().path_view() == self.doc_buffer().path_view()
            &&& if is_undo {
                &&& after.doc_history().undo_stack() == self.doc_history().undo_stack().drop_last()
                &&& after.doc_history().redo_stack() == self.doc_history().redo_stack().push(t)
            } else {
                &&& after.doc_history().redo_stack() == self.doc_history().redo_stack().drop_last()
                &&& after.doc_history().undo_stack() == self.doc_history().undo_stack().push(t)
            }
            &&& after.doc_caret().caret() == min_int(snap.caret_char as int, after.text().len() as int)
            &&& after.doc_caret().anchor() == match snap.anchor_char {
                Some(a) => Some(min_int(a as int, after.text().len() as int) as usize),
                None => None,
            }
            &&& after.doc_caret().preferred() is None
            &&& after.dirty()
            &&& after.generation() == self.generation() + 1
            &&& after.status() == Some("Modified"@)
        }
    }

    /// Undo the last step and put the caret back where it was before it.
    pub fn undo(&mut self) -> (changed: bool)
        requires
            old(self).wf(),
            old(self).generation() < u64::MAX,
        ensures
            final(self).wf(),
            old(self).replayed(true, *final(self), changed),
    {
        match self.edit_history.undo(&mut self.buffer) {
            Some(snapshot) => {
                self.caret_state.restore(snapshot, &self.buffer);
                self.mark_document_dirty();
                true
            },
            None => false,
        }
    }

    /// Redo the last undone step and put the caret where it was after it.
    pub fn redo(&mut self) -> (changed: bool)
        requires
            old(self).wf(),
            old(self).generation() < u64::MAX,
        ensures
            final(self).wf(),
            old(self).replayed(false, *final(self), changed),
    {
        match self.edit_history.redo(&mut self.buffer) {
            Some(snapshot) => {
                self.caret_state.restore(snapshot, &self.buffer);
                self.mark_document_dirty();
                true
            },
            None => false,
        }
    }

    /// Position of column `column` on line `line_index` (both clamped to
    /// the text: the last line at most, the visible end of the line at most).
    pub open spec fn pointer_position(&self, line_index: int, column: int) -> int {
        let s = self.text();
        let line = min_int(line_index, crate::lines::line_count(s) - 1);
        min_int(
            crate::lines::line_start(s, line as nat) + column,
            crate::editor::visual_end_of(s, line as nat),
        )
    }

    /// The character position a pointer at `line_index`, `column` points to.
    pub fn pointer_to_char(&self, line_index: usize, column: usize) -> (p: Option<usize>)
        ensures
            p matches Some(n) && n == self.pointer_position(line_index as int, column as int),
            0 <= self.pointer_position(line_index as int, column as int) <= self.text().len(),
    {
        let total_lines = self.buffer.len_lines();
        let line = if line_index < total_lines - 1 {
            line_index
        } else {
            total_lines - 1
        };
        let line_start = self.buffer.line_to_char(line);
        let end = crate::editor::visual_line_end(&self.buffer, line);
        let sum = line_start.saturating_add(column);
        Some(
            if sum < end {
                sum
            } else {
                end
            },
        )
    }

    /// Put the caret where the pointer is (extending the selection when
    /// `selecting`).
    pub fn set_caret_from_pointer(&mut self, line_index: usize, column: usize, selecting: bool)
        requires
            old(self).wf(),
        ensures
            final(self).wf(),
            old(self).doc_caret().moved_to(
                old(self).pointer_position(line_index as int, column as int),
                old(self).text().len() as int,
                selecting,
                final(self).doc_caret(),
            ),
            final(self).doc_caret().preferred() == old(self).doc_caret().preferred(),
            final(self).doc_buffer() == old(self).doc_buffer(),
            final(self).doc_history() == old(self).doc_history(),
            final(self).dirty() == old(self).dirty(),
            final(self).generation() == old(self).generation(),
            final(self).status() == old(self).status(),
    {
        let next = match self.pointer_to_char(line_index, column) {
            Some(n) => n,
            None => 0,
        };
        self.caret_state.set_caret_char(next, &self.buffer, selecting);
    }

    /// Select the word under the pointer; nothing changes off a word.
    pub fn select_word_from_pointer(&mut self, line_index: usize, column: usize)
        requires
            old(self).wf(),
        ensures
            final(self).wf(),
            match crate::editor::word_range_of(
                old(self).text(),
                old(self).pointer_position(line_index as int, column as int),
            ) {
                Some((s, e)) => {
                    &&& final(self).doc_caret().anchor() == Some(s as usize)
                    &&& final(self).doc_caret().caret() == e
                    &&& final(self).doc_caret().preferred() is None
                },
                None => final(self).doc_caret() == old(self).doc_caret(),
            },
            final(self).doc_buffer() == old(self).doc_buffer(),
            final(self).doc_history() == old(self).doc_history(),
            final(self).dirty() == old(self).dirty(),
            final(self).generation() == old(self).generation(),
            final(self).status() == old(self).status(),
    {
        let char_index = match self.pointer_to_char(line_index, column) {
            Some(i) => i,
            None => return,
        };
        let word = match crate::editor::word_char_range(&self.buffer, char_index) {
            Some(w) => w,
            None => return,
        };
        self.caret_state.select_range(word.start, word.end, &self.buffer);
    }

    /// What Enter inserts at `caret_char`: a newline and the indentation to
    /// continue with.
    pub fn indentation_for_newline(buffer: &Buffer, caret_char: usize) -> (r: String)
        ensures
            r@ == newline_indentation(buffer@, caret_char as int),
    {
        let total_chars = buffer.len_chars();
        if total_chars == 0 {
            let r = "\n".to_string();
            proof {
                reveal_strlit("\n");
            }
            return r;
        }
        let line_probe = if caret_char == 0 {
            0
        } else if caret_char - 1 < total_chars - 1 {
            caret_char - 1
        } else {
            total_chars - 1
        };
        let line_idx = buffer.char_to_line(line_probe);
        proof {
            crate::lines::lemma_line_of_start(buffer@, line_probe as int);
        }
        let line = buffer.line(line_idx).unwrap();
        let chars = str_chars(line.as_str());
        let ghost content = trim_newlines_end(chars@);
        let content_len = trimmed_chars_len(&chars);
        let lead = indent_prefix_len(&chars, content_len);
        let trimmed_len = trimmed_whitespace_len(&chars, content_len);
        let mut out: Vec<char> = Vec::new();
        out.push('\n');
        if trimmed_len > 0 && chars[trimmed_len - 1] == '{' {
            push_range(&mut out, &chars, 0, lead);
            out.push(' ');
            out.push(' ');
            out.push(' ');
            out.push(' ');
            proof {
                assert(out@ == seq!['\n'] + content.take(lead as int) + indent_unit());
            }
        } else if trimmed_len > 0 && chars[0] == '}' {
            let keep = if lead > 0 && chars[lead - 1] == '\t' {
                trailing_tabs_start(&chars, lead)
            } else if ends_with_unit(&chars, lead) {
                trailing_units_start(&chars, lead)
            } else {
                0
            };
            push_range(&mut out, &chars, 0, keep);
            proof {
                let leading = content.take(lead as int);
                assert(leading == chars@.take(lead as int));
                if lead > 0 && chars@[lead - 1] == '\t' {
                } else if ends_with_indent_unit(leading) {
                } else {
                    assert(chars@.take(0) == Seq::<char>::empty());
                }
                assert(out@ == seq!['\n'] + chars@.take(keep as int));
            }
        } else {
            push_range(&mut out, &chars, 0, lead);
            proof {
                assert(out@ == seq!['\n'] + content.take(lead as int));
            }
        }
        string_from_chars(out.as_slice())
    }

    /// Only the caret moved: the text, history and flags are as before.
    pub open spec fn caret_only(&self, after: OpenDocument) -> bool {
        &&& after.doc_buffer() == self.doc_buffer()
        &&& after.doc_history() == self.doc_history()
        &&& after.dirty() == self.dirty()
        &&& after.generation() == self.generation()
        &&& after.status() == self.status()
    }

    /// Run an editing command: edits change the text and history as the
    /// matching method does, moves change only the caret, copy and cut hand
    /// the selected text back, save and the palette toggle are left to the
    /// caller.
    pub fn execute_command(&mut self, command: EditorCommand) -> (outcome: CommandOutcome)
        requires
            old(self).wf(),
            old(self).generation() < u64::MAX,
        ensures
            final(self).wf(),
            ({
                let before = *old(self);
                let after = *final(self);
                let caret = before.doc_caret();
                let len = before.text().len() as int;
                match command {
                    EditorCommand::InsertText(t) => exists|changed: bool|
                        #[trigger] change_outcome(changed, outcome) && match caret.selection() {
                            Some((s, e)) => before.edited(s, e, t@, after, changed),
                            None => before.edited(
                                caret.caret() as int,
                                caret.caret() as int,
                                t@,
                                after,
                                changed,
                            ),
                        },
                    _ => true,
                }
            }),
            ({
                let before = *old(self);
                let after = *final(self);
                let caret = before.doc_caret();
                let len = before.text().len() as int;
                match command {
                    EditorCommand::Paste(t) => exists|changed: bool|
                        #[trigger] change_outcome(changed, outcome) && match caret.selection() {
                            Some((s, e)) => before.edited(s, e, t@, after, changed),
                            None => before.edited(
                                caret.caret() as int,
                                caret.caret() as int,
                                t@,
                                after,
                                changed,
                            ),
                        },
                    _ => true,
                }
            }),
            ({
                let before = *old(self);
                let after = *final(self);
                let caret = before.doc_caret();
                let len = before.text().len() as int;
                match command {
                    EditorCommand::InsertNewline => {
                        let t = newline_indentation(before.text(), caret.caret() as int);
                        exists|changed: bool|
                            #[trigger] change_outcome(changed, outcome) && match caret.selection() {
                                Some((s, e)) => before.edited(s, e, t, after, changed),
                                None => before.edited(
                                    caret.caret() as int,
                                    caret.caret() as int,
                                    t,
                                    after,
                                    changed,
                                ),
                            }
                    },
                    _ => true,
                }
            }),
            ({
                let before = *old(self);
                let after = *final(self);
                let caret = before.doc_caret();
                let len = before.text().len() as int;
                match command {
                    EditorCommand::InsertTab => exists|changed: bool|
                        #[trigger] change_outcome(changed, outcome) && match caret.selection() {
                            Some((s, e)) => before.edited(s, e, indent_unit(), after, changed),
                            None => before.edited(
                                caret.caret() as int,
                                caret.caret() as int,
                                indent_unit(),
                                after,
                                changed,
                            ),
                        },
                    _ => true,
                }
            }),
            ({
                let before = *old(self);
                let after = *final(self);
                let caret = before.doc_caret();
                let len = before.text().len() as int;
                match command {
                    EditorCommand::Backspace => exists|changed: bool|
                        #[trigger] change_outcome(changed, outcome) && before.deleted_by(
                            caret.caret() > 0,
                            caret.caret() - 1,
                            caret.caret() as int,
                            after,
                            changed,
                        ),
                    _ => true,
                }
            }),
            ({
                let before = *old(self);
                let after = *final(self);
                let caret = before.doc_caret();
                let len = before.text().len() as int;
                match command {
                    EditorCommand::Delete => exists|changed: bool|
                        #[trigger] change_outcome(changed, outcome) && before.deleted_by(
                            caret.caret() < len,
                            caret.caret() as int,
                            caret.caret() + 1,
                            after,
                            changed,
                        ),
                    _ => true,
                }
            }),
            ({
                let before = *old(self);
                let after = *final(self);
                let caret = before.doc_caret();
                let len = before.text().len() as int;
                match command {
                    EditorCommand::DeleteWordBackward => exists|changed: bool|
                        #[trigger] change_outcome(changed, outcome) && before.deleted_by(
                            caret.caret() > 0,
                            previous_word_boundary_of(before.text(), caret.caret() as int),
                            caret.caret() as int,
                            after,
                            changed,
                        ),
                    _ => true,
                }
            }),
            ({
                let before = *old(self);
                let after = *final(self);
                let caret = before.doc_caret();
                let len = before.text().len() as int;
                match command {
                    EditorCommand::DeleteWordForward => exists|changed: bool|
                        #[trigger] change_outcome(changed, outcome) && before.deleted_by(
                            caret.caret() < len,
                            caret.caret() as int,
                            next_word_boundary_of(before.text(), caret.caret() as int),
                            after,
                            changed,
                        ),
                    _ => true,
                }
            }),
            ({
                let before = *old(self);
                let after = *final(self);
                let caret = before.doc_caret();
                let len = before.text().len() as int;
                match command {
                    EditorCommand::MoveLeft { selecting } => {
                        &&& outcome is Noop
                        &&& before.caret_only(after)
                        &&& caret.horizontal_move(
                            if caret.caret() > 0 {
                                caret.caret() - 1
                            } else {
                                0
                            },
                            true,
                            len,
                            selecting,
                            after.doc_caret(),
                        )
                    },
                    _ => true,
                }
            }),
            ({
                let before = *old(self);
                let after = *final(self);
                let caret = before.doc_caret();
                let len = before.text().len() as int;
                match command {
                    EditorCommand::MoveRight { selecting } => {
                        &&& outcome is Noop
                        &&& before.caret_only(after)
                        &&& caret.horizontal_move(
                            min_int(caret.caret() + 1, len),
                            false,
                            len,
                            selecting,
                            after.doc_caret(),
                        )
                    },
                    _ => true,
                }
            }),
            ({
                let before = *old(self);
                let after = *final(self);
                let caret = before.doc_caret();
                let len = before.text().len() as int;
                match command {
                    EditorCommand::MoveWordLeft { selecting } => {
                        &&& outcome is Noop
                        &&& before.caret_only(after)
                        &&& caret.horizontal_move(
                            previous_word_boundary_of(before.text(), caret.caret() as int),
                            true,
                            len,
                            selecting,
                            after.doc_caret(),
                        )
                    },
                    _ => true,
                }
            }),
            ({
                let before = *old(self);
                let after = *final(self);
                let caret = before.doc_caret();
                let len = before.text().len() as int;
                match command {
                    EditorCommand::MoveWordRight { selecting } => {
                        &&& outcome is Noop
                        &&& before.caret_only(after)
                        &&& caret.horizontal_move(
                            next_word_boundary_of(before.text(), caret.caret() as int),
                            false,
                            len,
                            selecting,
                            after.doc_caret(),
                        )
                    },
                    _ => true,
                }
            }),
            ({
                let before = *old(self);
                let after = *final(self);
                let caret = before.doc_caret();
                let len = before.text().len() as int;
                match command {
                    EditorCommand::MoveUp { selecting } => {
                        let line = current_line_of(before.text(), caret.caret() as int);
                        &&& outcome is Noop
                        &&& before.caret_only(after)
                        &&& if line == 0 {
                            &&& caret.moved_to(0, len, selecting, after.doc_caret())
                            &&& after.doc_caret().preferred() == caret.preferred()
                        } else {
                            caret.vertical_move(
                                before.text(),
                                line,
                                (line - 1) as nat,
                                selecting,
                                after.doc_caret(),
                            )
                        }
                    },
                    _ => true,
                }
            }),
            ({
                let before = *old(self);
                let after = *final(self);
                let caret = before.doc_caret();
                let len = before.text().len() as int;
                match command {
                    EditorCommand::MoveDown { selecting } => {
                        let line = current_line_of(before.text(), caret.caret() as int);
                        &&& outcome is Noop
                        &&& before.caret_only(after)
                        &&& if line + 1 >= line_count(before.text()) {
                            &&& caret.moved_to(len, len, selecting, after.doc_caret())
                            &&& after.doc_caret().preferred() == caret.preferred()
                        } else {
                            caret.vertical_move(
                                before.text(),
                                line,
                                (line + 1) as nat,
                                selecting,
                                after.doc_caret(),
                            )
                        }
                    },
                    _ => true,
                }
            }),
            ({
                let before = *old(self);
                let after = *final(self);
                let caret = before.doc_caret();
                let len = before.text().len() as int;
                match command {
                    EditorCommand::MoveHome { selecting } => {
                        &&& outcome is Noop
                        &&& before.caret_only(after)
                        &&& caret.moved_to(
                            line_start(
                                before.text(),
                                current_line_of(before.text(), caret.caret() as int),
                            ),
                            len,
                            selecting,
                            after.doc_caret(),
                        )
                        &&& after.doc_caret().preferred() is None
                    },
                    _ => true,
                }
            }),
            ({
                let before = *old(self);
                let after = *final(self);
                let caret = before.doc_caret();
                let len = before.text().len() as int;
                match command {
                    EditorCommand::MoveEnd { selecting } => {
                        &&& outcome is Noop
                        &&& before.caret_only(after)
                        &&& caret.moved_to(
                            visual_end_of(
                                before.text(),
                                current_line_of(before.text(), caret.caret() as int),
                            ),
                            len,
                            selecting,
                            after.doc_caret(),
                        )
                        &&& after.doc_caret().preferred() is None
                    },
                    _ => true,
                }
            }),
            ({
                let before = *old(self);
                let after = *final(self);
                let caret = before.doc_caret();
                let len = before.text().len() as int;
                match command {
                    EditorCommand::SelectAll => {
                        &&& outcome is Noop
                        &&& before.caret_only(after)
                        &&& after.doc_caret().anchor() == Some(0usize)
                        &&& after.doc_caret().caret() == len
                        &&& after.doc_caret().preferred() is None
                    },
                    _ => true,
                }
            }),
            ({
                let before = *old(self);
                let after = *final(self);
                let caret = before.doc_caret();
                let len = before.text().len() as int;
                match command {
                    EditorCommand::Copy => {
                        &&& after == before
                        &&& match caret.selection() {
                            Some((s, e)) => (outcome matches CommandOutcome::Copy(t) && t@
                                == before.text().subrange(s, e)),
                            None => outcome is Noop,
                        }
                    },
                    _ => true,
                }
            }),
            ({
                let before = *old(self);
                let after = *final(self);
                let caret = before.doc_caret();
                let len = before.text().len() as int;
                match command {
                    EditorCommand::Cut => match caret.selection() {
                        Some((s, e)) => {
                            &&& outcome matches CommandOutcome::Cut(t) && t@ == before.text().subrange(
                                s,
                                e,
                            )
                            &&& exists|changed: bool|
                                #[trigger] before.edited(
                                    s,
                                    e,
                                    Seq::<char>::empty(),
                                    after,
                                    changed,
                                )
                        },
                        None => {
                            &&& outcome is Noop
                            &&& after == before
                        },
                    },
                    _ => true,
                }
            }),
            ({
                let before = *old(self);
                let after = *final(self);
                let caret = before.doc_caret();
                let len = before.text().len() as int;
                match command {
                    EditorCommand::Undo => exists|changed: bool|
                        #[trigger] change_outcome(changed, outcome) && before.replayed(
                            true,
                            after,
                            changed,
                        ),
                    _ => true,
                }
            }),
            ({
                let before = *old(self);
                let after = *final(self);
                let caret = before.doc_caret();
                let len = before.text().len() as int;
                match command {
                    EditorCommand::Redo => exists|changed: bool|
                        #[trigger] change_outcome(changed, outcome) && before.replayed(
                            false,
                            after,
                            changed,
                        ),
                    _ => true,
                }
            }),
            ({
                let before = *old(self);
                let after = *final(self);
                let caret = before.doc_caret();
                let len = before.text().len() as int;
                match command {
                    EditorCommand::Save => {
                        &&& outcome is Save
                        &&& after == before
                    },
                    _ => true,
                }
            }),
            ({
                let before = *old(self);
                let after = *final(self);
                let caret = before.doc_caret();
                let len = before.text().len() as int;
                match command {
                    EditorCommand::ToggleCommandPanel => {
                        &&& outcome is Noop
                        &&& after == before
                    },
                    _ => true,
                }
            }),
    {
        match command {
            EditorCommand::InsertText(text) => {
                let changed = self.insert_or_replace_selection(text.as_str());
                outcome_of(changed)
            },
            EditorCommand::Paste(text) => {
                let changed = self.insert_or_replace_selection(text.as_str());
                outcome_of(changed)
            },
            EditorCommand::InsertNewline => {
                let indentation = OpenDocument::indentation_for_newline(
                    &self.buffer,
                    self.caret_state.caret_char(),
                );
                let changed = self.insert_or_replace_selection(indentation.as_str());
                outcome_of(changed)
            },
            EditorCommand::InsertTab => {
                proof {
                    reveal_strlit("    ");
                    assert("    "@ =~= indent_unit());
                }
                let changed = self.insert_or_replace_selection("    ");
                outcome_of(changed)
            },
            EditorCommand::Backspace => {
                let changed = self.delete_backward();
                outcome_of(changed)
            },
            EditorCommand::Delete => {
                let changed = self.delete_forward();
                outcome_of(changed)
            },
            EditorCommand::DeleteWordBackward => {
                let changed = self.delete_word_backward();
                outcome_of(changed)
            },
            EditorCommand::DeleteWordForward => {
                let changed = self.delete_word_forward();
                outcome_of(changed)
            },
            EditorCommand::MoveLeft { selecting } => {
                self.caret_state.move_left(&self.buffer, selecting);
                CommandOutcome::Noop
            },
            EditorCommand::MoveRight { selecting } => {
                self.caret_state.move_right(&self.buffer, selecting);
                CommandOutcome::Noop
            },
            EditorCommand::MoveWordLeft { selecting } => {
                self.caret_state.move_word_left(&self.buffer, selecting);
                CommandOutcome::Noop
            },
            EditorCommand::MoveWordRight { selecting } => {
                self.caret_state.move_word_right(&self.buffer, selecting);
                CommandOutcome::Noop
            },
            EditorCommand::MoveUp { selecting } => {
                self.caret_state.move_up(&self.buffer, selecting);
                CommandOutcome::Noop
            },
            EditorCommand::MoveDown { selecting } => {
                self.caret_state.move_down(&self.buffer, selecting);
                CommandOutcome::Noop
            },
            EditorCommand::MoveHome { selecting } => {
                self.caret_state.move_home(&self.buffer, selecting);
                CommandOutcome::Noop
            },
            EditorCommand::MoveEnd { selecting } => {
                self.caret_state.move_end(&self.buffer, selecting);
                CommandOutcome::Noop
            },
            EditorCommand::SelectAll => {
                self.caret_state.select_all(&self.buffer);
                CommandOutcome::Noop
            },
            EditorCommand::Copy => match self.selected_text() {
                Some(text) => CommandOutcome::Copy(text),
                None => CommandOutcome::Noop,
            },
            EditorCommand::Cut => match self.selected_text() {
                Some(text) => {
                    let changed = self.delete_selection();
                    proof {
                        let _ = old(self).edited(
                            old(self).doc_caret().selection().unwrap().0,
                            old(self).doc_caret().selection().unwrap().1,
                            Seq::<char>::empty(),
                            *self,
                            changed,
                        );
                    }
                    CommandOutcome::Cut(text)
                },
                None => CommandOutcome::Noop,
            },
            EditorCommand::Undo => {
                let changed = self.undo();
                outcome_of(changed)
            },
            EditorCommand::Redo => {
                let changed = self.redo();
                outcome_of(changed)
            },
            EditorCommand::Save => CommandOutcome::Save,
            EditorCommand::ToggleCommandPanel => CommandOutcome::Noop,
        }
    }
}

/// What a save writes and reports, given the text and what the formatter
/// made of it (`None` when no format runs on save): formatted text that
/// differs is written and reported; formatted text equal to the original
/// writes the original and reports nothing; a formatter error writes the
/// original and reports the error.
pub fn save_output(text: String, formatted: Option<Result<String, String>>) -> (r: (String, Option<Result<String, String>>))
    ensures
        match formatted {
            None => r.0@ == text@ && r.1 is None,
            Some(Ok(f)) => if f@ != text@ {
                r.0@ == f@ && (r.1 matches Some(Ok(g)) && g@ == f@)
            } else {
                r.0@ == text@ && r.1 is None
            },
            Some(Err(e)) => r.0@ == text@ && (r.1 matches Some(Err(g)) && g@ == e@),
        },
{
    match formatted {
        None => (text, None),
        Some(Ok(f)) => {
            if crate::text::str_equal(f.as_str(), text.as_str()) {
                (text, None)
            } else {
                let written = f.clone();
                (written, Some(Ok(f)))
            }
        },
        Some(Err(e)) => (text, Some(Err(e))),
    }
}

} // verus!
