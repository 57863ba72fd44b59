use lux::pairing::{action_for, closing_pair, matched_pair_around, opening_pair, PairingAction};

#[test]
fn brackets_auto_close() {
    for opener in ['(', '[', '{'] {
        assert_eq!(action_for(opener, None, None), PairingAction::AutoClose);
        assert_eq!(action_for(opener, Some('a'), None), PairingAction::AutoClose);
    }
}

#[test]
fn quotes_auto_close_only_outside_words() {
    assert_eq!(action_for('"', None, None), PairingAction::AutoClose);
    assert_eq!(action_for('\'', Some(' '), None), PairingAction::AutoClose);
    assert_eq!(action_for('"', Some('t'), None), PairingAction::Plain);
    assert_eq!(action_for('"', Some('t'), Some('"')), PairingAction::Skip);
    assert_eq!(action_for('"', Some('"'), Some('"')), PairingAction::Skip);
}

#[test]
fn closer_completes_auto_closed_pair() {
    assert_eq!(action_for(')', Some('('), Some(')')), PairingAction::Skip);
    assert_eq!(action_for(']', Some('['), Some(']')), PairingAction::Skip);
    assert_eq!(action_for('}', Some('{'), Some('}')), PairingAction::Skip);
    assert_eq!(action_for(')', Some('a'), Some(')')), PairingAction::Plain);
    assert_eq!(action_for(')', None, Some(')')), PairingAction::Plain);
}

#[test]
fn ordinary_characters_are_plain() {
    assert_eq!(action_for('a', None, None), PairingAction::Plain);
    assert_eq!(action_for('+', Some(' '), None), PairingAction::Plain);
}

#[test]
fn matched_pair_detection() {
    assert!(matched_pair_around(Some('('), Some(')')));
    assert!(matched_pair_around(Some('"'), Some('"')));
    assert!(!matched_pair_around(Some('('), Some(']')));
    assert!(!matched_pair_around(None, Some(')')));
    assert!(!matched_pair_around(Some('a'), Some('b')));
}

#[test]
fn pairs_map_both_ways() {
    for (open, close) in [('(', ')'), ('[', ']'), ('{', '}'), ('"', '"'), ('\'', '\''), ('`', '`')] {
        assert_eq!(closing_pair(open), Some(close));
        assert_eq!(opening_pair(close), Some(open));
    }
    assert_eq!(closing_pair(')'), None);
    assert_eq!(opening_pair('('), None);
    assert_eq!(closing_pair('x'), None);
}

#[test]
fn typing_the_closer_inside_an_empty_pair_steps_over_it() {
    for (open, close) in [('(', ')'), ('[', ']'), ('{', '}'), ('"', '"'), ('`', '`')] {
        assert!(matched_pair_around(Some(open), Some(close)));
        assert_eq!(action_for(close, Some(open), Some(close)), PairingAction::Skip);
    }
}

#[test]
fn quote_after_underscore_or_unicode_letter_is_plain() {
    assert_eq!(action_for('\'', Some('_'), None), PairingAction::Plain);
    assert_eq!(action_for('\'', Some('é'), None), PairingAction::Plain);
    assert_eq!(action_for('\'', Some('7'), None), PairingAction::Plain);
    assert_eq!(action_for('`', Some('.'), None), PairingAction::AutoClose);
}

#[test]
fn quote_at_start_before_same_quote_auto_closes() {
    // Without a character before the caret the quote opens a new pair.
    assert_eq!(action_for('"', None, Some('"')), PairingAction::AutoClose);
}
