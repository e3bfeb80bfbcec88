use readline::command::split_tokens;
use readline::command::normalize_newlines;
use readline::command::submit_response;
use readline::command::SubmitDisplay;
use readline::command::SubmitOutcome;
use readline::editor::KeyEvent;
use readline::editor::Readline;
use readline::editor::update;

#[test]
fn split_tokens_on_single_space() {
    let tokens = split_tokens("echo hi");
    assert_eq!(tokens, vec!["echo".to_string(), "hi".to_string()]);
}

#[test]
fn split_tokens_collapses_runs_of_whitespace() {
    let tokens = split_tokens("  ls \t -l  \n");
    assert_eq!(tokens, vec!["ls".to_string(), "-l".to_string()]);
}

#[test]
fn split_tokens_of_blank_line_is_empty() {
    assert!(split_tokens("").is_empty());
    assert!(split_tokens("   \t ").is_empty());
}

#[test]
fn normalize_newlines_inserts_carriage_returns() {
    assert_eq!(normalize_newlines("hi\n"), "hi\r\n");
    assert_eq!(normalize_newlines("a\nb\n"), "a\r\nb\r\n");
    assert_eq!(normalize_newlines("plain"), "plain");
    assert_eq!(normalize_newlines(""), "");
}

#[test]
fn executable_submission_renders_normalized_streams() {
    let mut model = Readline::new(Vec::new());
    for c in "echo hi".chars() {
        update(&mut model, KeyEvent::Char(c));
    }
    let line = update(&mut model, KeyEvent::Submit).unwrap();
    assert_eq!(line, "echo hi");
    let tokens = split_tokens(&line);
    assert_eq!(tokens[0], "echo");
    assert_eq!(&tokens[1..], &["hi".to_string()]);
    let shown = submit_response(
        &line,
        SubmitOutcome::Ran { stdout: "hi\n".to_string(), stderr: String::new() },
    );
    match shown {
        SubmitDisplay::Output { stdout, stderr } => {
            assert_eq!(stdout, "hi\r\n");
            assert_eq!(stderr, "");
        }
        SubmitDisplay::Echo { .. } => panic!("command output expected"),
    }
}

#[test]
fn failing_submission_echoes_raw_line() {
    let line = "nonexistentcmd123";
    let shown = submit_response(line, SubmitOutcome::NotRun);
    match shown {
        SubmitDisplay::Echo { line: echoed } => assert_eq!(echoed, line),
        SubmitDisplay::Output { .. } => panic!("echo expected"),
    }
}

#[test]
fn stderr_is_normalized_too() {
    let shown = submit_response(
        "cmd",
        SubmitOutcome::Ran {
            stdout: String::new(),
            stderr: "oops\nbad\n".to_string(),
        },
    );
    match shown {
        SubmitDisplay::Output { stdout, stderr } => {
            assert_eq!(stdout, "");
            assert_eq!(stderr, "oops\r\nbad\r\n");
        }
        SubmitDisplay::Echo { .. } => panic!("command output expected"),
    }
}
