//! The editable buffer model and its key-event transition function: a
//! line of text, a cursor, and a live prefix suggestion drawn from the
//! sorted index of directory entry names.

use vstd::prelude::*;
use crate::index::first_match;
use crate::index::lemma_first_match_at;
use crate::index::lemma_first_match_minimal;
use crate::index::lemma_first_match_none;
use crate::index::lower_bound;
use crate::index::build_index;
use crate::index::sorted;
use crate::index::views;
use crate::text::is_prefix;
use crate::text::lemma_lex_total;
use crate::text::lemma_prefix_not_gt;
use crate::text::lemma_prefix_range;
use crate::text::push_char;
use crate::text::str_starts_with;

verus! {

/// A cursor location on the input line; `x` is the column offset from
/// the start of the line.
pub struct Position {
    pub x: usize,
    pub y: usize,
}

impl Position {
    /// The top-left position, column and row zero.
    pub fn origin() -> (r: Self)
        ensures
            r.x == 0,
            r.y == 0,
    {
        Self { x: 0, y: 0 }
    }
}

/// One terminal key event, as the update function consumes it.
#[derive(Clone, Copy, PartialEq, Eq, Structural)]
pub enum KeyEvent {
    /// A printable character.
    Char(char),
    /// Enter: submit the buffer as a command line.
    Submit,
    /// Left arrow.
    Left,
    /// Right arrow.
    Right,
    /// Delete the character before the cursor.
    Backspace,
    /// Quit the loop; the update function itself leaves the model alone.
    Interrupt,
    /// Any key the editor does not react to.
    Other,
}

/// The mathematical state of the editor: the buffer and suggestion as
/// character sequences, the cursor as a column count, and the index
/// entries in order.
pub ghost struct ModelView {
    pub buffer: Seq<char>,
    pub cursor: nat,
    pub suggestion: Option<Seq<char>>,
    pub entries: Seq<Seq<char>>,
}

impl ModelView {
    /// Well-formedness: the cursor stays on the line, the index is
    /// sorted, and a present suggestion starts with the buffer.
    pub open spec fn wf(self) -> bool {
        &&& self.cursor <= self.buffer.len()
        &&& sorted(self.entries)
        &&& match self.suggestion {
            Some(s) => is_prefix(self.buffer, s),
            None => true,
        }
    }
}

/// The suggestion after an edit left the buffer as `buf`: none for an
/// empty buffer; a still-valid current suggestion is kept; otherwise
/// the first index entry at or after `buf` that starts with it.
pub open spec fn next_suggestion(
    cur: Option<Seq<char>>,
    buf: Seq<char>,
    entries: Seq<Seq<char>>,
) -> Option<Seq<char>> {
    if buf.len() == 0 {
        None
    } else {
        match cur {
            Some(s) => if is_prefix(buf, s) {
                cur
            } else {
                first_match(entries, buf)
            },
            None => first_match(entries, buf),
        }
    }
}

/// The state transition for one key event.
pub open spec fn step(v: ModelView, e: KeyEvent) -> ModelView {
    match e {
        KeyEvent::Submit => ModelView {
            buffer: Seq::empty(),
            cursor: 0,
            suggestion: None,
            entries: v.entries,
        },
        KeyEvent::Char(c) => {
            let b2 = v.buffer.push(c);
            ModelView {
                buffer: b2,
                cursor: v.cursor + 1,
                suggestion: next_suggestion(v.suggestion, b2, v.entries),
                entries: v.entries,
            }
        },
        KeyEvent::Left => if v.cursor > 0 {
            ModelView {
                buffer: v.buffer,
                cursor: (v.cursor - 1) as nat,
                suggestion: v.suggestion,
                entries: v.entries,
            }
        } else {
            v
        },
        KeyEvent::Right => if v.cursor < v.buffer.len() {
            ModelView {
                buffer: v.buffer,
                cursor: v.cursor + 1,
                suggestion: v.suggestion,
                entries: v.entries,
            }
        } else {
            v
        },
        KeyEvent::Backspace => if v.cursor == v.buffer.len() && v.buffer.len() > 0 {
            let b2 = v.buffer.drop_last();
            ModelView {
                buffer: b2,
                cursor: (v.cursor - 1) as nat,
                suggestion: next_suggestion(v.suggestion, b2, v.entries),
                entries: v.entries,
            }
        } else if 0 < v.cursor < v.buffer.len() {
            let b2 = v.buffer.remove(v.cursor - 1);
            ModelView {
                buffer: b2,
                cursor: (v.cursor - 1) as nat,
                suggestion: next_suggestion(v.suggestion, b2, v.entries),
                entries: v.entries,
            }
        } else {
            v
        },
        KeyEvent::Interrupt => v,
        KeyEvent::Other => v,
    }
}

/// What one key event returns to the caller: the submitted line on
/// Enter, nothing otherwise.
pub open spec fn step_out(v: ModelView, e: KeyEvent) -> Option<Seq<char>> {
    match e {
        KeyEvent::Submit => Some(v.buffer),
        _ => None,
    }
}

/// The editable line model: buffer, cursor, suggestion index and the
/// currently active suggestion.
pub struct Readline {
    pub cursor_pos: Position,
    pub buffer: String,
    pub dir_entries: Vec<String>,
    pub suggestion: Option<String>,
}

impl View for Readline {
    type V = ModelView;

    open spec fn view(&self) -> ModelView {
        ModelView {
            buffer: self.buffer@,
            cursor: self.cursor_pos.x as nat,
            suggestion: match self.suggestion {
                Some(s) => Some(s@),
                None => None,
            },
            entries: views(self.dir_entries@),
        }
    }
}

impl Readline {
    /// A fresh editor over the given candidate names: empty buffer,
    /// cursor at the origin, no suggestion, and the names sorted into
    /// the index with duplicates collapsed.
    pub fn new(names: Vec<String>) -> (r: Readline)
        ensures
            r@.wf(),
            r@.buffer.len() == 0,
            r@.cursor == 0,
            r@.suggestion is None,
            forall|s: Seq<char>| #[trigger] r@.entries.contains(s) <==> views(names@).contains(s),
    {
        Readline {
            cursor_pos: Position::origin(),
            buffer: String::new(),
            dir_entries: build_index(names),
            suggestion: None,
        }
    }

    /// Recomputes the active suggestion for the current buffer, keeping
    /// a still-valid one and otherwise running the ordered range query
    /// over the index.
    pub fn update_suggestion(&mut self)
        requires
            sorted(old(self)@.entries),
        ensures
            final(self)@.buffer == old(self)@.buffer,
            final(self)@.cursor == old(self)@.cursor,
            final(self)@.entries == old(self)@.entries,
            final(self)@.suggestion == next_suggestion(
                old(self)@.suggestion,
                old(self)@.buffer,
                old(self)@.entries,
            ),
            match final(self)@.suggestion {
                Some(s) => is_prefix(final(self)@.buffer, s),
                None => true,
            },
    {
        let ghost v = views(self.dir_entries@);
        let ghost buf = self.buffer@;
        if self.buffer.as_str().is_empty() {
            self.suggestion = None;
            return ;
        }
        let keep = match &self.suggestion {
            Some(s) => str_starts_with(s.as_str(), self.buffer.as_str()),
            None => false,
        };
        if keep {
            return ;
        }
        let idx = lower_bound(&self.dir_entries, self.buffer.as_str());
        proof {
            assert forall|j: int| 0 <= j < idx implies !is_prefix(buf, #[trigger] v[j]) by {
                if is_prefix(buf, v[j]) {
                    lemma_prefix_not_gt(buf, v[j]);
                }
            }
        }
        if idx < self.dir_entries.len() {
            let hit = str_starts_with(self.dir_entries[idx].as_str(), self.buffer.as_str());
            if hit {
                let cand = self.dir_entries[idx].clone();
                proof {
                    lemma_first_match_at(v, buf, idx as int);
                }
                self.suggestion = Some(cand);
            } else {
                proof {
                    assert forall|j: int| 0 <= j < v.len() implies !is_prefix(
                        buf,
                        #[trigger] v[j],
                    ) by {
                        if j >= idx && is_prefix(buf, v[j]) {
                            if j > idx {
                                lemma_lex_total(v[idx as int], v[j]);
                            } else {
                                lemma_lex_total(v[idx as int], v[idx as int]);
                            }
                            lemma_prefix_range(buf, v[idx as int], v[j]);
                        }
                    }
                    lemma_first_match_none(v, buf);
                }
                self.suggestion = None;
            }
        } else {
            proof {
                lemma_first_match_none(v, buf);
            }
            self.suggestion = None;
        }
    }
}

/// Applies one key event to the model, exactly as `step` describes, and
/// returns the submitted line on Enter.
pub fn update(model: &mut Readline, event: KeyEvent) -> (r: Option<String>)
    requires
        old(model)@.wf(),
    ensures
        final(model)@.wf(),
        final(model)@ == step(old(model)@, event),
        match r {
            Some(line) => step_out(old(model)@, event) == Some(line@),
            None => step_out(old(model)@, event) is None,
        },
{
    let ghost v0 = model@;
    match event {
        KeyEvent::Submit => {
            let line = model.buffer.clone();
            model.buffer = String::new();
            model.suggestion = None;
            model.cursor_pos = Position::origin();
            proof {
                assert(model@.buffer =~= Seq::<char>::empty());
            }
            Some(line)
        },
        KeyEvent::Char(c) => {
            push_char(&mut model.buffer, c);
            model.cursor_pos.x = model.cursor_pos.x + 1;
            model.update_suggestion();
            proof {
                lemma_next_suggestion_prefix(v0.suggestion, model@.buffer, v0.entries);
            }
            None
        },
        KeyEvent::Left => {
            if model.cursor_pos.x > 0 {
                model.cursor_pos.x = model.cursor_pos.x - 1;
            }
            None
        },
        KeyEvent::Right => {
            let len = model.buffer.as_str().unicode_len();
            if model.cursor_pos.x < len {
                model.cursor_pos.x = model.cursor_pos.x + 1;
            }
            None
        },
        KeyEvent::Backspace => {
            let len = model.buffer.as_str().unicode_len();
            if model.cursor_pos.x == len {
                if len > 0 {
                    let shorter = model.buffer.as_str().substring_char(0, len - 1).to_owned();
                    model.buffer = shorter;
                    model.cursor_pos.x = len - 1;
                    proof {
                        assert(model@.buffer =~= v0.buffer.drop_last());
                    }
                    model.update_suggestion();
                    proof {
                        lemma_next_suggestion_prefix(v0.suggestion, model@.buffer, v0.entries);
                    }
                }
            } else if model.cursor_pos.x > 0 {
                let x = model.cursor_pos.x;
                let left = model.buffer.as_str().substring_char(0, x - 1).to_owned();
                let right = model.buffer.as_str().substring_char(x, len);
                let joined = left.concat(right);
                model.buffer = joined;
                model.cursor_pos.x = x - 1;
                proof {
                    assert(model@.buffer =~= v0.buffer.remove(x - 1));
                }
                model.update_suggestion();
                proof {
                    lemma_next_suggestion_prefix(v0.suggestion, model@.buffer, v0.entries);
                }
            }
            None
        },
        KeyEvent::Interrupt => None,
        KeyEvent::Other => None,
    }
}

/// Whatever `next_suggestion` returns starts with the buffer it was
/// computed for.
pub proof fn lemma_next_suggestion_prefix(
    cur: Option<Seq<char>>,
    buf: Seq<char>,
    entries: Seq<Seq<char>>,
)
    requires
        sorted(entries),
    ensures
        match next_suggestion(cur, buf, entries) {
            Some(s) => is_prefix(buf, s),
            None => true,
        },
{
    lemma_first_match_minimal(entries, buf);
}

/// What one render pass writes after the prompt: the buffer text, the
/// suggestion tail beyond the buffer (styled differently by the caller),
/// and how many columns to move the cursor back from the right end of
/// the displayed text.
pub struct RenderPlan {
    pub text: String,
    pub suffix: Option<String>,
    pub cursor_back: usize,
}

impl Readline {
    /// Projects the model into a render plan. The cursor ends up
    /// `cursor_back` columns left of the displayed end, which places it
    /// at column `cursor_pos.x`; the move is zero exactly when the
    /// cursor already sits at the rightmost displayed column.
    pub fn render_plan(&self) -> (p: RenderPlan)
        requires
            self@.wf(),
        ensures
            p.text@ == self@.buffer,
            match self@.suggestion {
                Some(s) => match p.suffix {
                    Some(x) => x@ == s.skip(self@.buffer.len() as int) && p.cursor_back + self@.cursor == s.len(),
                    None => false,
                },
                None => p.suffix is None && p.cursor_back + self@.cursor == self@.buffer.len(),
            },
    {
        match &self.suggestion {
            Some(s) => {
                let slen = s.as_str().unicode_len();
                let blen = self.buffer.as_str().unicode_len();
                let suf = s.as_str().substring_char(blen, slen).to_owned();
                proof {
                    assert(suf@ =~= self@.suggestion->Some_0.skip(self@.buffer.len() as int));
                }
                RenderPlan {
                    text: self.buffer.clone(),
                    suffix: Some(suf),
                    cursor_back: slen - self.cursor_pos.x,
                }
            },
            None => {
                let blen = self.buffer.as_str().unicode_len();
                RenderPlan {
                    text: self.buffer.clone(),
                    suffix: None,
                    cursor_back: blen - self.cursor_pos.x,
                }
            },
        }
    }
}

} // verus!
