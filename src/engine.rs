//! The engine's decisions on each event: what happens to the buffer, and
//! which match is to be expanded.

use vstd::prelude::*;

use crate::expander::ExpansionResult;
use crate::matcher::{check_spec, pushed, MatchResult, Matcher, MatcherView};
use crate::monitor::KeyboardEvent;
use crate::text::is_separator;

verus! {

/// The matcher's state after an event, and the match it yields: a typed
/// character is appended and checked, and a match is cut from the buffer;
/// Backspace removes a character; Enter, Tab and Escape clear the buffer.
/// A disabled engine ignores every event.
pub open spec fn event_spec(v: MatcherView, enabled: bool, ev: KeyboardEvent) -> (MatcherView, Option<crate::matcher::MatchSpec>) {
    if !enabled {
        (v, None)
    } else {
        match ev {
            KeyboardEvent::Character(ch) | KeyboardEvent::WordBoundary(ch) => {
                let p = MatcherView { buffer: pushed(v.buffer, ch), at_word_boundary: is_separator(ch), ..v };
                match check_spec(p) {
                    Some(m) => (
                        MatcherView {
                            buffer: p.buffer.subrange(
                                0,
                                if m.delete <= p.buffer.len() {
                                    p.buffer.len() - m.delete
                                } else {
                                    0
                                },
                            ),
                            ..p
                        },
                        Some(m),
                    ),
                    None => (p, None),
                }
            },
            KeyboardEvent::Backspace => (
                MatcherView {
                    buffer: if v.buffer.len() == 0 {
                        v.buffer
                    } else {
                        v.buffer.drop_last()
                    },
                    ..v
                },
                None,
            ),
            _ => (MatcherView { buffer: Seq::empty(), at_word_boundary: true, ..v }, None),
        }
    }
}

/// Applies a keyboard event to the matcher and returns the match to expand, if any.
pub fn process_event(matcher: &mut Matcher, enabled: bool, event: KeyboardEvent) -> (r: Option<MatchResult>)
    requires
        old(matcher).wf(),
    ensures
        final(matcher).wf(),
        final(matcher)@ == event_spec(old(matcher)@, enabled, event).0,
        match r {
            Some(m) => event_spec(old(matcher)@, enabled, event).1 matches Some(s) && m.agrees(s),
            None => event_spec(old(matcher)@, enabled, event).1 is None,
        },
{
    if !enabled {
        return None;
    }
    match event {
        KeyboardEvent::Character(ch) | KeyboardEvent::WordBoundary(ch) => {
            matcher.push_char(ch);
            let found = matcher.check_match();
            match found {
                Some(m) => {
                    matcher.remove_last(m.chars_to_delete);
                    Some(m)
                },
                None => None,
            }
        },
        KeyboardEvent::Backspace => {
            matcher.handle_backspace();
            None
        },
        KeyboardEvent::Enter | KeyboardEvent::Tab | KeyboardEvent::Escape => {
            matcher.clear();
            None
        },
    }
}

/// An expansion with the trigger kept where the settings say not to delete it.
pub fn apply_delete_setting(expansion: ExpansionResult, delete_trigger: bool) -> (r: ExpansionResult)
    ensures
        r.text == expansion.text,
        r.cursor_offset == expansion.cursor_offset,
        r.delete_count == if delete_trigger {
            expansion.delete_count
        } else {
            0
        },
{
    if delete_trigger {
        expansion
    } else {
        ExpansionResult { delete_count: 0, ..expansion }
    }
}

} // verus!
