//! Laws of the editor: facts proved about whole sequences of key
//! events, and about the suggestion's relation to the index.

use vstd::prelude::*;
use crate::editor::KeyEvent;
use crate::editor::ModelView;
use crate::editor::lemma_next_suggestion_prefix;
use crate::editor::next_suggestion;
use crate::editor::step;
use crate::editor::step_out;
use crate::index::first_match;
use crate::index::lemma_first_match_minimal;
use crate::index::sorted;
use crate::text::is_prefix;
use crate::text::lex_lt;
use crate::text::lemma_lex_total;
use crate::text::lemma_prefix_not_gt;
use crate::text::lemma_prefix_refl;
use crate::text::lemma_prefix_trans;

verus! {

/// The model after a whole sequence of key events, first event first.
pub open spec fn apply_events(v: ModelView, events: Seq<KeyEvent>) -> ModelView
    decreases events.len(),
{
    if events.len() == 0 {
        v
    } else {
        apply_events(step(v, events[0]), events.skip(1))
    }
}

/// One step keeps the model well formed.
pub proof fn lemma_step_wf(v: ModelView, e: KeyEvent)
    requires
        v.wf(),
    ensures
        step(v, e).wf(),
{
    match e {
        KeyEvent::Char(c) => {
            lemma_next_suggestion_prefix(v.suggestion, v.buffer.push(c), v.entries);
        },
        KeyEvent::Backspace => {
            if v.cursor == v.buffer.len() && v.buffer.len() > 0 {
                lemma_next_suggestion_prefix(v.suggestion, v.buffer.drop_last(), v.entries);
            } else if 0 < v.cursor < v.buffer.len() {
                lemma_next_suggestion_prefix(
                    v.suggestion,
                    v.buffer.remove(v.cursor - 1),
                    v.entries,
                );
            }
        },
        _ => {},
    }
}

/// No interleaving of events breaks well-formedness: in particular the
/// cursor never leaves `0 <= cursor <= len(buffer)`.
pub proof fn lemma_events_wf(v: ModelView, events: Seq<KeyEvent>)
    requires
        v.wf(),
    ensures
        apply_events(v, events).wf(),
    decreases events.len(),
{
    if events.len() != 0 {
        lemma_step_wf(v, events[0]);
        lemma_events_wf(step(v, events[0]), events.skip(1));
    }
}

/// All events in the sequence are printable characters.
pub open spec fn all_chars(events: Seq<KeyEvent>) -> bool {
    forall|i: int| 0 <= i < events.len() ==> (#[trigger] events[i]) is Char
}

/// The characters carried by a sequence of character events.
pub open spec fn chars_of(events: Seq<KeyEvent>) -> Seq<char> {
    events.map_values(|e: KeyEvent| e->Char_0)
}

/// Typing appends: a run of character events extends the buffer by
/// exactly those characters, in order, and advances the cursor by one
/// per character.
pub proof fn lemma_typing_appends(v: ModelView, events: Seq<KeyEvent>)
    requires
        all_chars(events),
    ensures
        apply_events(v, events).buffer == v.buffer + chars_of(events),
        apply_events(v, events).cursor == v.cursor + events.len(),
        apply_events(v, events).entries == v.entries,
    decreases events.len(),
{
    if events.len() == 0 {
        assert(v.buffer + chars_of(events) =~= v.buffer);
    } else {
        let e = events[0];
        let c = e->Char_0;
        assert(forall|j: int|
            0 <= j < events.len() - 1 ==> #[trigger] events.skip(1)[j] == events[j + 1]);
        lemma_typing_appends(step(v, e), events.skip(1));
        assert(v.buffer.push(c) + chars_of(events.skip(1)) =~= v.buffer + chars_of(events)) by {
            assert(forall|j: int|
                0 <= j < events.len() - 1 ==> #[trigger] chars_of(events.skip(1))[j] == chars_of(
                    events,
                )[j + 1]);
        }
    }
}

/// Typing into an empty buffer leaves the buffer equal to the
/// concatenation of the typed characters, with the cursor at its end.
pub proof fn lemma_typing_from_empty(v: ModelView, events: Seq<KeyEvent>)
    requires
        v.buffer.len() == 0,
        v.cursor == 0,
        all_chars(events),
    ensures
        apply_events(v, events).buffer == chars_of(events),
        apply_events(v, events).cursor == apply_events(v, events).buffer.len(),
{
    lemma_typing_appends(v, events);
    assert(v.buffer + chars_of(events) =~= chars_of(events));
}

/// Submitting hands back exactly the buffer and resets the line; in
/// particular an empty buffer submits an empty line and leaves the
/// cursor at zero.
pub proof fn lemma_submit_resets(v: ModelView)
    ensures
        step_out(v, KeyEvent::Submit) == Some(v.buffer),
        step(v, KeyEvent::Submit).cursor == 0,
        step(v, KeyEvent::Submit).buffer.len() == 0,
        step(v, KeyEvent::Submit).suggestion is None,
{
}

/// When the previous suggestion is not simply kept, the recomputed one
/// is correct and complete: it starts with the buffer, no matching
/// index entry comes lexicographically before it, and it is absent
/// exactly when no entry starts with the buffer.
pub proof fn lemma_suggestion_minimal(
    cur: Option<Seq<char>>,
    buf: Seq<char>,
    entries: Seq<Seq<char>>,
)
    requires
        sorted(entries),
        buf.len() > 0,
        match cur {
            Some(s) => !is_prefix(buf, s),
            None => true,
        },
    ensures
        match next_suggestion(cur, buf, entries) {
            Some(e) => entries.contains(e) && is_prefix(buf, e) && forall|j: int|
                0 <= j < entries.len() && is_prefix(buf, #[trigger] entries[j]) ==> !lex_lt(
                    entries[j],
                    e,
                ),
            None => forall|j: int| 0 <= j < entries.len() ==> !is_prefix(buf, #[trigger] entries[j]),
        },
{
    lemma_first_match_minimal(entries, buf);
}

/// The suggestion is exact: absent for an empty buffer, and otherwise
/// precisely the first matching index entry.
pub open spec fn suggestion_exact(v: ModelView) -> bool {
    v.suggestion == if v.buffer.len() == 0 {
        None::<Seq<char>>
    } else {
        first_match(v.entries, v.buffer)
    }
}

/// Typing one character keeps the suggestion exact: a kept suggestion
/// is still the lexicographically smallest match of the longer buffer.
pub proof fn lemma_char_keeps_exact(v: ModelView, c: char)
    requires
        v.wf(),
        suggestion_exact(v),
    ensures
        suggestion_exact(step(v, KeyEvent::Char(c))),
{
    let b2 = v.buffer.push(c);
    assert(is_prefix(v.buffer, b2)) by {
        assert(v.buffer =~= b2.subrange(0, v.buffer.len() as int));
    }
    if v.buffer.len() > 0 {
        match first_match(v.entries, v.buffer) {
            Some(s) => {
                if is_prefix(b2, s) {
                    lemma_first_match_minimal(v.entries, v.buffer);
                    lemma_first_match_minimal(v.entries, b2);
                    let i_s = choose|i: int|
                        0 <= i < v.entries.len() && v.entries[i] == s;
                    match first_match(v.entries, b2) {
                        Some(e2) => {
                            lemma_prefix_trans(v.buffer, b2, e2);
                            let i_e = choose|i: int|
                                0 <= i < v.entries.len() && v.entries[i] == e2;
                            assert(is_prefix(b2, v.entries[i_s]));
                            assert(is_prefix(v.buffer, v.entries[i_e]));
                            lemma_lex_total(s, e2);
                        },
                        None => {
                            assert(is_prefix(b2, v.entries[i_s]));
                        },
                    }
                }
            },
            None => {},
        }
    }
}

/// A whole run of typed characters keeps the suggestion exact.
pub proof fn lemma_typing_keeps_exact(v: ModelView, events: Seq<KeyEvent>)
    requires
        v.wf(),
        suggestion_exact(v),
        all_chars(events),
    ensures
        apply_events(v, events).wf(),
        suggestion_exact(apply_events(v, events)),
    decreases events.len(),
{
    if events.len() == 0 {
    } else {
        let e = events[0];
        assert(e == KeyEvent::Char(e->Char_0));
        lemma_step_wf(v, e);
        lemma_char_keeps_exact(v, e->Char_0);
        assert(forall|j: int|
            0 <= j < events.len() - 1 ==> #[trigger] events.skip(1)[j] == events[j + 1]);
        lemma_typing_keeps_exact(step(v, e), events.skip(1));
    }
}

/// Once the buffer equals an index entry, the suggestion collapses onto
/// that entry rather than disappearing.
pub proof fn lemma_exact_match_collapses(v: ModelView)
    requires
        v.wf(),
        suggestion_exact(v),
        v.buffer.len() > 0,
        v.entries.contains(v.buffer),
    ensures
        v.suggestion == Some(v.buffer),
{
    lemma_first_match_minimal(v.entries, v.buffer);
    lemma_prefix_refl(v.buffer);
    let i = choose|i: int| 0 <= i < v.entries.len() && v.entries[i] == v.buffer;
    match first_match(v.entries, v.buffer) {
        Some(e) => {
            lemma_prefix_not_gt(v.buffer, e);
            assert(is_prefix(v.buffer, v.entries[i]));
            lemma_lex_total(e, v.buffer);
        },
        None => {
            assert(is_prefix(v.buffer, v.entries[i]));
        },
    }
}

/// While exactly one index entry starts with the buffer, the suggestion
/// is that entry.
pub proof fn lemma_unique_match(v: ModelView, e: Seq<char>)
    requires
        v.wf(),
        suggestion_exact(v),
        v.buffer.len() > 0,
        v.entries.contains(e),
        is_prefix(v.buffer, e),
        forall|j: int|
            0 <= j < v.entries.len() && is_prefix(v.buffer, #[trigger] v.entries[j])
                ==> v.entries[j] == e,
    ensures
        v.suggestion == Some(e),
{
    lemma_first_match_minimal(v.entries, v.buffer);
    let i = choose|i: int| 0 <= i < v.entries.len() && v.entries[i] == e;
    match first_match(v.entries, v.buffer) {
        Some(f) => {
            let k = choose|k: int| 0 <= k < v.entries.len() && v.entries[k] == f;
            assert(is_prefix(v.buffer, v.entries[k]));
        },
        None => {
            assert(is_prefix(v.buffer, v.entries[i]));
        },
    }
}

} // verus!
