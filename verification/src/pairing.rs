//! Smart bracket pairing: auto-close, skip-over, pair-aware backspace, and
//! empty-pair newline, decided from the characters just before (`prev`) and
//! just after (`next`) a caret.

use vstd::prelude::*;

use crate::text::{char_is_alphanumeric, is_alphanumeric};

verus! {

/// What should happen when the user types a character at a caret.
#[derive(Clone, Copy, Debug, PartialEq, Eq, Structural)]
pub enum PairingAction {
    /// Insert the opener plus its closing pair, caret between them.
    AutoClose,
    /// The character right after the caret already closes this pair: move
    /// past it instead of inserting a duplicate.
    Skip,
    /// Plain single-character insert.
    Plain,
}

/// The closer that pairs with `opener`, if it opens a pair.
pub open spec fn closer_of(opener: char) -> Option<char> {
    if opener == '(' {
        Some(')')
    } else if opener == '[' {
        Some(']')
    } else if opener == '{' {
        Some('}')
    } else if opener == '"' || opener == '\'' || opener == '`' {
        Some(opener)
    } else {
        None
    }
}

/// The opener that pairs with `closer`, if it closes a pair.
pub open spec fn opener_of(closer: char) -> Option<char> {
    if closer == ')' {
        Some('(')
    } else if closer == ']' {
        Some('[')
    } else if closer == '}' {
        Some('{')
    } else if closer == '"' || closer == '\'' || closer == '`' {
        Some(closer)
    } else {
        None
    }
}

/// A character that belongs to a word: alphanumeric or `_`.
pub open spec fn is_pairing_word_char(c: char) -> bool {
    is_alphanumeric(c) || c == '_'
}

/// The pairing decision for typing `ch` between `prev` and `next`.
pub open spec fn pairing_action(ch: char, prev: Option<char>, next: Option<char>) -> PairingAction {
    if closer_of(ch) is Some {
        if closer_of(ch) == Some(ch) && next == Some(ch) && prev is Some {
            PairingAction::Skip
        } else if closer_of(ch) == Some(ch) && (prev matches Some(p) && is_pairing_word_char(p)) {
            PairingAction::Plain
        } else {
            PairingAction::AutoClose
        }
    } else {
        match opener_of(ch) {
            Some(opener) => {
                if next == Some(ch) && (opener == ch || prev == Some(opener)) {
                    PairingAction::Skip
                } else {
                    PairingAction::Plain
                }
            },
            None => PairingAction::Plain,
        }
    }
}

/// Whether the caret sits between a matched opener and closer with nothing
/// in between.
pub open spec fn is_matched_pair(prev: Option<char>, next: Option<char>) -> bool {
    match (prev, next) {
        (Some(p), Some(n)) => closer_of(p) == Some(n),
        _ => false,
    }
}

/// Closing pair for an opening character, if it is one.
pub fn closing_pair(opener: char) -> (r: Option<char>)
    ensures
        r == closer_of(opener),
{
    match opener {
        '(' => Some(')'),
        '[' => Some(']'),
        '{' => Some('}'),
        '"' | '\'' | '`' => Some(opener),
        _ => None,
    }
}

/// Opening pair for a closing character, if it is one.
pub fn opening_pair(closer: char) -> (r: Option<char>)
    ensures
        r == opener_of(closer),
{
    match closer {
        ')' => Some('('),
        ']' => Some('['),
        '}' => Some('{'),
        '"' | '\'' | '`' => Some(closer),
        _ => None,
    }
}

fn is_word_char(ch: char) -> (r: bool)
    ensures
        r == is_pairing_word_char(ch),
{
    char_is_alphanumeric(ch) || ch == '_'
}

/// Decide the pairing behavior for typing `ch` between `prev` and `next`.
pub fn action_for(ch: char, prev: Option<char>, next: Option<char>) -> (r: PairingAction)
    ensures
        r == pairing_action(ch, prev, next),
{
    let closer = closing_pair(ch);
    if closer.is_some() {
        let is_quote = match closer {
            Some(c) => c == ch,
            None => false,
        };
        if is_quote {
            let next_is_same = match next {
                Some(n) => n == ch,
                None => false,
            };
            if next_is_same && prev.is_some() {
                return PairingAction::Skip;
            }
            let after_word = match prev {
                Some(p) => is_word_char(p),
                None => false,
            };
            if after_word {
                return PairingAction::Plain;
            }
        }
        return PairingAction::AutoClose;
    }
    if let Some(opener) = opening_pair(ch) {
        let next_matches = match next {
            Some(n) => n == ch,
            None => false,
        };
        if opener == ch {
            if next_matches {
                return PairingAction::Skip;
            }
        } else {
            let prev_opens = match prev {
                Some(p) => p == opener,
                None => false,
            };
            if next_matches && prev_opens {
                return PairingAction::Skip;
            }
        }
    }
    PairingAction::Plain
}

/// True when the caret sits between a matched opener and closer with nothing
/// in between (as in `(|)`), which backspace and Enter treat specially.
pub fn matched_pair_around(prev: Option<char>, next: Option<char>) -> (r: bool)
    ensures
        r == is_matched_pair(prev, next),
{
    match (prev, next) {
        (Some(p), Some(n)) => match closing_pair(p) {
            Some(c) => c == n,
            None => false,
        },
        _ => false,
    }
}

/// Pairs go both ways: the closer of an opener has that opener as its
/// opener, and back.
pub proof fn law_pairs_are_inverse(opener: char, closer: char)
    ensures
        closer_of(opener) == Some(closer) <==> opener_of(closer) == Some(opener),
{
}

/// Typing the closer of an empty matched pair steps over it instead of
/// inserting a second closer.
pub proof fn law_closer_skips_in_empty_pair(prev: char, next: char)
    requires
        is_matched_pair(Some(prev), Some(next)),
    ensures
        pairing_action(next, Some(prev), Some(next)) == PairingAction::Skip,
{
}

/// Only an opening character is ever auto-closed, and only a character equal
/// to the one after the caret is ever skipped over.
pub proof fn law_auto_close_and_skip(ch: char, prev: Option<char>, next: Option<char>)
    ensures
        pairing_action(ch, prev, next) == PairingAction::AutoClose ==> closer_of(ch) is Some,
        pairing_action(ch, prev, next) == PairingAction::Skip ==> next == Some(ch),
{
}

} // verus!
