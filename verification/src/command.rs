//! The submit path: splitting a submitted line into command and
//! argument tokens, normalizing captured output for a raw-mode
//! terminal, and choosing what to display for a submission.

use vstd::prelude::*;
use crate::index::views;
use crate::text::push_char;

verus! {

/// Whitespace for the purpose of token splitting.
pub open spec fn is_ws(c: char) -> bool {
    c == ' ' || c == '\t' || c == '\r' || c == '\n'
}

/// Token splitting with an accumulator: `cur` is the token in progress.
pub open spec fn split_ws_acc(s: Seq<char>, cur: Seq<char>) -> Seq<Seq<char>>
    decreases s.len(),
{
    if s.len() == 0 {
        if cur.len() == 0 {
            Seq::empty()
        } else {
            seq![cur]
        }
    } else if is_ws(s[0]) {
        if cur.len() == 0 {
            split_ws_acc(s.skip(1), Seq::empty())
        } else {
            seq![cur] + split_ws_acc(s.skip(1), Seq::empty())
        }
    } else {
        split_ws_acc(s.skip(1), cur.push(s[0]))
    }
}

/// The whitespace-separated tokens of `s`, in order.
pub open spec fn split_ws(s: Seq<char>) -> Seq<Seq<char>> {
    split_ws_acc(s, Seq::empty())
}

/// Splits a submitted line into its whitespace-separated tokens; the
/// first is the command, the rest are its arguments.
pub fn split_tokens(line: &str) -> (tokens: Vec<String>)
    ensures
        views(tokens@) == split_ws(line@),
{
    let n = line.unicode_len();
    let mut tokens: Vec<String> = Vec::new();
    let mut cur = String::new();
    let mut i: usize = 0;
    proof {
        assert(views(tokens@) =~= Seq::<Seq<char>>::empty());
        assert(line@.skip(0) =~= line@);
    }
    while i < n
        invariant
            i <= n,
            n == line@.len(),
            split_ws(line@) == views(tokens@) + split_ws_acc(line@.skip(i as int), cur@),
        decreases n - i,
    {
        let c = line.get_char(i);
        let ghost pre = line@.skip(i as int);
        proof {
            assert(pre[0] == line@[i as int]);
            assert(pre.skip(1) =~= line@.skip(i + 1));
        }
        if c == ' ' || c == '\t' || c == '\r' || c == '\n' {
            if !cur.as_str().is_empty() {
                let ghost toks0 = views(tokens@);
                let ghost cur0 = cur@;
                tokens.push(cur);
                cur = String::new();
                proof {
                    assert(cur@ =~= Seq::<char>::empty());
                    assert(split_ws_acc(pre, cur0) == seq![cur0] + split_ws_acc(
                        line@.skip(i + 1),
                        Seq::empty(),
                    ));
                    assert(views(tokens@) =~= toks0.push(cur0));
                    assert(toks0.push(cur0) =~= toks0 + seq![cur0]);
                    assert((toks0 + seq![cur0]) + split_ws_acc(line@.skip(i + 1), Seq::empty())
                        =~= toks0 + (seq![cur0] + split_ws_acc(line@.skip(i + 1), Seq::empty())));
                }
            } else {
                proof {
                    assert(cur@ =~= Seq::<char>::empty());
                    assert(split_ws_acc(pre, Seq::empty()) == split_ws_acc(
                        line@.skip(i + 1),
                        Seq::empty(),
                    ));
                }
            }
        } else {
            let ghost cur0 = cur@;
            push_char(&mut cur, c);
            proof {
                assert(split_ws_acc(pre, cur0) == split_ws_acc(line@.skip(i + 1), cur0.push(c)));
            }
        }
        i += 1;
    }
    proof {
        assert(line@.skip(n as int) =~= Seq::<char>::empty());
    }
    if !cur.as_str().is_empty() {
        let ghost toks0 = views(tokens@);
        let ghost cur0 = cur@;
        tokens.push(cur);
        proof {
            assert(views(tokens@) =~= toks0.push(cur0));
            assert(toks0.push(cur0) =~= toks0 + seq![cur0]);
        }
    }
    tokens
}

/// `s` with every line feed turned into a carriage return plus line
/// feed, as a raw-mode terminal needs.
pub open spec fn crlf(s: Seq<char>) -> Seq<char>
    decreases s.len(),
{
    if s.len() == 0 {
        Seq::empty()
    } else if s[0] == '\n' {
        seq!['\r', '\n'] + crlf(s.skip(1))
    } else {
        seq![s[0]] + crlf(s.skip(1))
    }
}

/// Rewrites captured subprocess output for display in raw mode, where a
/// bare line feed does not return the carriage.
pub fn normalize_newlines(s: &str) -> (r: String)
    ensures
        r@ == crlf(s@),
{
    let n = s.unicode_len();
    let mut out = String::new();
    let mut i: usize = 0;
    proof {
        assert(out@ + crlf(s@.skip(0)) =~= crlf(s@)) by {
            assert(s@.skip(0) =~= s@);
        }
    }
    while i < n
        invariant
            i <= n,
            n == s@.len(),
            crlf(s@) == out@ + crlf(s@.skip(i as int)),
        decreases n - i,
    {
        let c = s.get_char(i);
        let ghost pre = s@.skip(i as int);
        let ghost out0 = out@;
        proof {
            assert(pre[0] == s@[i as int]);
            assert(pre.skip(1) =~= s@.skip(i + 1));
        }
        if c == '\n' {
            push_char(&mut out, '\r');
            push_char(&mut out, '\n');
            proof {
                assert(out@ =~= out0 + seq!['\r', '\n']);
                assert((out0 + seq!['\r', '\n']) + crlf(s@.skip(i + 1)) =~= out0 + (seq![
                    '\r',
                    '\n',
                ] + crlf(s@.skip(i + 1))));
            }
        } else {
            push_char(&mut out, c);
            proof {
                assert(out@ =~= out0 + seq![c]);
                assert((out0 + seq![c]) + crlf(s@.skip(i + 1)) =~= out0 + (seq![c] + crlf(
                    s@.skip(i + 1),
                )));
            }
        }
        i += 1;
    }
    proof {
        assert(s@.skip(n as int) =~= Seq::<char>::empty());
        assert(out@ + crlf(s@.skip(n as int)) =~= out@);
    }
    out
}

/// How a submission ended outside the editor: the command ran and its
/// output was captured, or it could not be located or executed (or the
/// line held no command token at all).
pub enum SubmitOutcome {
    Ran { stdout: String, stderr: String },
    NotRun,
}

/// What the loop displays for a submission: the raw line echoed back,
/// or the command's captured streams, normalized for raw mode.
pub enum SubmitDisplay {
    Echo { line: String },
    Output { stdout: String, stderr: String },
}

/// Chooses the display for a submitted line: a command that ran shows
/// its normalized stdout and stderr; anything else echoes the raw line
/// unchanged.
pub fn submit_response(line: &str, outcome: SubmitOutcome) -> (r: SubmitDisplay)
    ensures
        match outcome {
            SubmitOutcome::NotRun => (r matches SubmitDisplay::Echo { line: l } && l@ == line@),
            SubmitOutcome::Ran { stdout, stderr } => (r matches SubmitDisplay::Output {
                stdout: o,
                stderr: e,
            } && o@ == crlf(stdout@) && e@ == crlf(stderr@)),
        },
{
    match outcome {
        SubmitOutcome::NotRun => SubmitDisplay::Echo { line: line.to_owned() },
        SubmitOutcome::Ran { stdout, stderr } => SubmitDisplay::Output {
            stdout: normalize_newlines(stdout.as_str()),
            stderr: normalize_newlines(stderr.as_str()),
        },
    }
}

} // verus!
