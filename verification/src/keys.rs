//! The editor's key map: which editing command a keyboard or clipboard
//! event asks for.

use vstd::prelude::*;

use crate::document::EditorCommand;
use crate::text::str_chars;

verus! {

/// The keys the editor responds to.
#[derive(Clone, Copy, Debug, PartialEq, Eq, Structural)]
pub enum Key {
    A,
    C,
    K,
    S,
    X,
    Y,
    Z,
    Enter,
    Tab,
    Backspace,
    Delete,
    ArrowLeft,
    ArrowRight,
    ArrowUp,
    ArrowDown,
    Home,
    End,
    /// Any other key.
    Other,
}

/// The modifier keys held with a key.
#[derive(Clone, Copy, Debug, PartialEq, Eq, Structural)]
pub struct Modifiers {
    pub alt: bool,
    pub ctrl: bool,
    pub shift: bool,
    /// The platform's command key (Cmd on macOS, Ctrl elsewhere).
    pub command: bool,
}

/// A keyboard or clipboard event of the window.
#[derive(Clone, Debug, PartialEq, Eq)]
pub enum InputEvent {
    /// Typed text.
    Text(String),
    /// Text pasted from the clipboard.
    Paste(String),
    Copy,
    Cut,
    Key { key: Key, pressed: bool, modifiers: Modifiers },
    /// Any other event.
    Other,
}

/// An ASCII control character.
pub open spec fn is_ascii_control(c: char) -> bool {
    (c as u32) < 0x20 || c as u32 == 0x7f
}

/// The command a shortcut (the command or Ctrl key, without Alt) asks for.
pub open spec fn shortcut_command(key: Key, shift: bool) -> Option<EditorCommand> {
    match key {
        Key::A => Some(EditorCommand::SelectAll),
        Key::C => Some(EditorCommand::Copy),
        Key::K => Some(EditorCommand::ToggleCommandPanel),
        Key::X => Some(EditorCommand::Cut),
        Key::S => Some(EditorCommand::Save),
        Key::Z => if shift {
            Some(EditorCommand::Redo)
        } else {
            Some(EditorCommand::Undo)
        },
        Key::Y => Some(EditorCommand::Redo),
        _ => None,
    }
}

/// The command a key pressed with Alt asks for: moving and deleting by
/// word.
pub open spec fn alt_command(key: Key, selecting: bool) -> Option<EditorCommand> {
    match key {
        Key::ArrowLeft => Some(EditorCommand::MoveWordLeft { selecting }),
        Key::ArrowRight => Some(EditorCommand::MoveWordRight { selecting }),
        Key::Backspace => Some(EditorCommand::DeleteWordBackward),
        Key::Delete => Some(EditorCommand::DeleteWordForward),
        _ => None,
    }
}

/// The command a key pressed alone (or with Shift) asks for.
pub open spec fn plain_command(key: Key, selecting: bool) -> Option<EditorCommand> {
    match key {
        Key::Enter => Some(EditorCommand::InsertNewline),
        Key::Tab => Some(EditorCommand::InsertTab),
        Key::Backspace => Some(EditorCommand::Backspace),
        Key::Delete => Some(EditorCommand::Delete),
        Key::ArrowLeft => Some(EditorCommand::MoveLeft { selecting }),
        Key::ArrowRight => Some(EditorCommand::MoveRight { selecting }),
        Key::ArrowUp => Some(EditorCommand::MoveUp { selecting }),
        Key::ArrowDown => Some(EditorCommand::MoveDown { selecting }),
        Key::Home => Some(EditorCommand::MoveHome { selecting }),
        Key::End => Some(EditorCommand::MoveEnd { selecting }),
        _ => None,
    }
}

/// The command a key press asks for: a shortcut when the command or Ctrl
/// key is held without Alt, a word motion with Alt, a plain edit or motion
/// otherwise; Shift extends the selection.
pub open spec fn key_command(key: Key, modifiers: Modifiers) -> Option<EditorCommand> {
    if (modifiers.command || modifiers.ctrl) && !modifiers.alt {
        shortcut_command(key, modifiers.shift)
    } else if modifiers.alt {
        alt_command(key, modifiers.shift)
    } else {
        plain_command(key, modifiers.shift)
    }
}

/// Outside the Ctrl/command shortcuts, different keys held with the same
/// modifiers never ask for the same command.
pub proof fn law_keys_have_their_own_commands(k1: Key, k2: Key, modifiers: Modifiers)
    requires
        k1 != k2,
        !(modifiers.command || modifiers.ctrl) || modifiers.alt,
        key_command(k1, modifiers) is Some,
        key_command(k2, modifiers) is Some,
    ensures
        key_command(k1, modifiers) != key_command(k2, modifiers),
{
}

/// Backspace deletes backwards and Delete forwards: by word with Alt, by
/// character without, whatever Shift says; with Ctrl or command alone
/// neither deletes.
pub proof fn law_deleting_keys_keep_their_direction(modifiers: Modifiers)
    ensures
        modifiers.alt ==> key_command(Key::Backspace, modifiers) == Some(EditorCommand::DeleteWordBackward)
            && key_command(Key::Delete, modifiers) == Some(EditorCommand::DeleteWordForward),
        !modifiers.alt && !modifiers.ctrl && !modifiers.command ==> key_command(Key::Backspace, modifiers)
            == Some(EditorCommand::Backspace) && key_command(Key::Delete, modifiers) == Some(
            EditorCommand::Delete,
        ),
        !modifiers.alt && (modifiers.ctrl || modifiers.command) ==> key_command(Key::Backspace, modifiers) is None
            && key_command(Key::Delete, modifiers) is None,
{
}

/// The arrow, Home and End keys move the way they point (by word with Alt,
/// left and right only), and Shift makes the move extend the selection.
pub proof fn law_motion_keys_move_their_way(modifiers: Modifiers)
    requires
        !modifiers.ctrl && !modifiers.command,
    ensures
        ({
            let sel = modifiers.shift;
            if modifiers.alt {
                &&& key_command(Key::ArrowLeft, modifiers) == Some(EditorCommand::MoveWordLeft { selecting: sel })
                &&& key_command(Key::ArrowRight, modifiers) == Some(EditorCommand::MoveWordRight { selecting: sel })
            } else {
                &&& key_command(Key::ArrowLeft, modifiers) == Some(EditorCommand::MoveLeft { selecting: sel })
                &&& key_command(Key::ArrowRight, modifiers) == Some(EditorCommand::MoveRight { selecting: sel })
                &&& key_command(Key::ArrowUp, modifiers) == Some(EditorCommand::MoveUp { selecting: sel })
                &&& key_command(Key::ArrowDown, modifiers) == Some(EditorCommand::MoveDown { selecting: sel })
                &&& key_command(Key::Home, modifiers) == Some(EditorCommand::MoveHome { selecting: sel })
                &&& key_command(Key::End, modifiers) == Some(EditorCommand::MoveEnd { selecting: sel })
            }
        }),
{
}

/// The commands of at most one command.
pub open spec fn one_or_none(c: Option<EditorCommand>) -> Seq<EditorCommand> {
    match c {
        Some(c) => seq![c],
        None => Seq::<EditorCommand>::empty(),
    }
}

/// A list of at most one command.
fn list_of(c: Option<EditorCommand>) -> (r: Vec<EditorCommand>)
    ensures
        r@ == one_or_none(c),
{
    let mut out: Vec<EditorCommand> = Vec::new();
    match c {
        Some(c) => out.push(c),
        None => {},
    }
    proof {
        assert(out@ =~= one_or_none(c));
    }
    out
}

/// The command of a key press.
fn command_for_key(key: Key, modifiers: Modifiers) -> (r: Option<EditorCommand>)
    ensures
        r == key_command(key, modifiers),
{
    let selecting = modifiers.shift;
    if (modifiers.command || modifiers.ctrl) && !modifiers.alt {
        return match key {
            Key::A => Some(EditorCommand::SelectAll),
            Key::C => Some(EditorCommand::Copy),
            Key::K => Some(EditorCommand::ToggleCommandPanel),
            Key::X => Some(EditorCommand::Cut),
            Key::S => Some(EditorCommand::Save),
            Key::Z => if modifiers.shift {
                Some(EditorCommand::Redo)
            } else {
                Some(EditorCommand::Undo)
            },
            Key::Y => Some(EditorCommand::Redo),
            _ => None,
        };
    }
    if modifiers.alt {
        return match key {
            Key::ArrowLeft => Some(EditorCommand::MoveWordLeft { selecting }),
            Key::ArrowRight => Some(EditorCommand::MoveWordRight { selecting }),
            Key::Backspace => Some(EditorCommand::DeleteWordBackward),
            Key::Delete => Some(EditorCommand::DeleteWordForward),
            _ => None,
        };
    }
    match key {
        Key::Enter => Some(EditorCommand::InsertNewline),
        Key::Tab => Some(EditorCommand::InsertTab),
        Key::Backspace => Some(EditorCommand::Backspace),
        Key::Delete => Some(EditorCommand::Delete),
        Key::ArrowLeft => Some(EditorCommand::MoveLeft { selecting }),
        Key::ArrowRight => Some(EditorCommand::MoveRight { selecting }),
        Key::ArrowUp => Some(EditorCommand::MoveUp { selecting }),
        Key::ArrowDown => Some(EditorCommand::MoveDown { selecting }),
        Key::Home => Some(EditorCommand::MoveHome { selecting }),
        Key::End => Some(EditorCommand::MoveEnd { selecting }),
        _ => None,
    }
}

/// The editing commands an event asks for: typed text (unless it starts
/// with an ASCII control character), pasted text, copy and cut, and the
/// command of a pressed key; nothing for anything else.
pub fn commands_from_event(event: InputEvent) -> (r: Vec<EditorCommand>)
    ensures
        r@ == match event {
            InputEvent::Text(text) => if text@.len() > 0 && is_ascii_control(text@[0]) {
                Seq::<EditorCommand>::empty()
            } else {
                seq![EditorCommand::InsertText(text)]
            },
            InputEvent::Paste(text) => seq![EditorCommand::Paste(text)],
            InputEvent::Copy => seq![EditorCommand::Copy],
            InputEvent::Cut => seq![EditorCommand::Cut],
            InputEvent::Key { key, pressed, modifiers } => if pressed {
                one_or_none(key_command(key, modifiers))
            } else {
                Seq::<EditorCommand>::empty()
            },
            InputEvent::Other => Seq::<EditorCommand>::empty(),
        },
{
    match event {
        InputEvent::Text(text) => {
            let chars = str_chars(text.as_str());
            let control = chars.len() > 0 && ((chars[0] as u32) < 0x20 || chars[0] as u32 == 0x7f);
            if control {
                list_of(None)
            } else {
                list_of(Some(EditorCommand::InsertText(text)))
            }
        },
        InputEvent::Paste(text) => list_of(Some(EditorCommand::Paste(text))),
        InputEvent::Copy => list_of(Some(EditorCommand::Copy)),
        InputEvent::Cut => list_of(Some(EditorCommand::Cut)),
        InputEvent::Key { key, pressed, modifiers } => {
            if pressed {
                list_of(command_for_key(key, modifiers))
            } else {
                list_of(None)
            }
        },
        InputEvent::Other => list_of(None),
    }
}

/// What a frame knows about who holds the keyboard.
#[derive(Clone, Copy, Debug, PartialEq, Eq, Structural)]
pub struct FocusState {
    /// The window has the keyboard focus.
    pub window_focused: bool,
    pub palette_open: bool,
    pub prompt_open: bool,
    /// The settings tab is active.
    pub configuration_active: bool,
    /// A text field of the interface (not the editor) has the keyboard.
    pub text_field_focused: bool,
    /// The active tab holds a text document.
    pub has_text_document: bool,
    pub document_missing: bool,
    pub document_binary: bool,
    /// The document's edit area was clicked into last.
    pub edit_area_focused: bool,
}

/// Where an editing command goes.
#[derive(Clone, Copy, Debug, PartialEq, Eq, Structural)]
pub enum CommandRoute {
    /// Open or close the command palette.
    TogglePalette,
    /// Drop it: something else has the keyboard.
    Ignore,
    /// Run it on the active document.
    ToDocument,
}

/// The active document can take typing: it is a text document that exists,
/// is not binary, and has its edit area focused.
pub open spec fn document_takes_keys(focus: FocusState) -> bool {
    focus.has_text_document && !focus.document_missing && !focus.document_binary && focus.edit_area_focused
}

/// Whether the content area owns the keyboard: the window is focused and no
/// overlay or text field has taken it.
pub fn content_owns_keyboard(focus: &FocusState) -> (r: bool)
    ensures
        r == (focus.window_focused && !focus.palette_open && !focus.prompt_open && !focus.text_field_focused),
{
    focus.window_focused && !focus.palette_open && !focus.prompt_open && !focus.text_field_focused
}

/// Whether the editor has the keyboard (and its caret blinks): the content
/// area owns it, the settings are not showing, and the document takes keys.
pub fn editor_focused(focus: &FocusState) -> (r: bool)
    ensures
        r == (document_takes_keys(*focus) && focus.window_focused && !focus.palette_open && !focus.prompt_open
            && !focus.configuration_active && !focus.text_field_focused),
{
    focus.has_text_document && !focus.document_missing && !focus.document_binary && focus.edit_area_focused
        && focus.window_focused && !focus.palette_open && !focus.prompt_open && !focus.configuration_active
        && !focus.text_field_focused
}

/// Whether an editing command must be dropped: the palette toggle never is;
/// anything else is while the close prompt or the palette is open, the
/// settings show, the document cannot take keys, or a text field has the
/// keyboard.
pub fn should_ignore_editor_command(command: &EditorCommand, focus: &FocusState) -> (r: bool)
    ensures
        r == (!(*command is ToggleCommandPanel) && (focus.prompt_open || focus.palette_open
            || focus.configuration_active || !document_takes_keys(*focus) || focus.text_field_focused)),
{
    if let EditorCommand::ToggleCommandPanel = command {
        return false;
    }
    if focus.prompt_open {
        return true;
    }
    focus.palette_open || focus.configuration_active || !(focus.has_text_document && !focus.document_missing
        && !focus.document_binary && focus.edit_area_focused) || focus.text_field_focused
}

/// Where an editing command goes: the palette toggle toggles the palette
/// unless the close prompt (which is modal) is open; other commands go to the
/// document unless they must be dropped.
pub fn route_command(command: &EditorCommand, focus: &FocusState) -> (r: CommandRoute)
    ensures
        *command is ToggleCommandPanel ==> r == (if focus.prompt_open {
            CommandRoute::Ignore
        } else {
            CommandRoute::TogglePalette
        }),
        !(*command is ToggleCommandPanel) ==> r == (if focus.prompt_open || focus.palette_open
            || focus.configuration_active || !document_takes_keys(*focus) || focus.text_field_focused {
            CommandRoute::Ignore
        } else {
            CommandRoute::ToDocument
        }),
{
    if let EditorCommand::ToggleCommandPanel = command {
        if focus.prompt_open {
            return CommandRoute::Ignore;
        }
        return CommandRoute::TogglePalette;
    }
    if should_ignore_editor_command(command, focus) {
        CommandRoute::Ignore
    } else {
        CommandRoute::ToDocument
    }
}

/// Whether an event can ask for an editing command at all: text, paste,
/// copy, cut and keys.
pub fn is_editor_event(event: &InputEvent) -> (r: bool)
    ensures
        r == !(*event is Other),
{
    match event {
        InputEvent::Other => false,
        _ => true,
    }
}

} // verus!
