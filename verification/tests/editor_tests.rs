use readline::editor::KeyEvent;
use readline::editor::Position;
use readline::editor::Readline;
use readline::editor::update;
use readline::index::build_index;
use readline::mvu::ModelVieUpdate;

fn editor_with(names: &[&str]) -> Readline {
    Readline::new(names.iter().map(|s| s.to_string()).collect())
}

fn type_str(model: &mut Readline, text: &str) {
    for c in text.chars() {
        assert_eq!(update(model, KeyEvent::Char(c)), None);
    }
}

#[test]
fn position_origin_is_zero() {
    let p = Position::origin();
    assert_eq!(p.x, 0);
    assert_eq!(p.y, 0);
}

#[test]
fn typing_accumulates_in_order() {
    let mut model = editor_with(&[]);
    type_str(&mut model, "abc");
    assert_eq!(model.buffer, "abc");
    assert_eq!(model.cursor_pos.x, 3);
}

#[test]
fn submit_returns_buffer_and_resets() {
    let mut model = editor_with(&[]);
    type_str(&mut model, "echo hi");
    let line = update(&mut model, KeyEvent::Submit);
    assert_eq!(line.as_deref(), Some("echo hi"));
    assert_eq!(model.buffer, "");
    assert_eq!(model.cursor_pos.x, 0);
    assert_eq!(model.suggestion, None);
}

#[test]
fn submit_empty_buffer_returns_empty_line() {
    let mut model = editor_with(&["main.rs"]);
    let line = update(&mut model, KeyEvent::Submit);
    assert_eq!(line.as_deref(), Some(""));
    assert_eq!(model.cursor_pos.x, 0);
    assert_eq!(model.buffer, "");
}

#[test]
fn left_stops_at_zero_and_right_at_end() {
    let mut model = editor_with(&[]);
    assert_eq!(update(&mut model, KeyEvent::Left), None);
    assert_eq!(model.cursor_pos.x, 0);
    type_str(&mut model, "ab");
    assert_eq!(update(&mut model, KeyEvent::Right), None);
    assert_eq!(model.cursor_pos.x, 2);
    update(&mut model, KeyEvent::Left);
    assert_eq!(model.cursor_pos.x, 1);
    update(&mut model, KeyEvent::Right);
    assert_eq!(model.cursor_pos.x, 2);
}

#[test]
fn backspace_at_end_drops_last() {
    let mut model = editor_with(&[]);
    type_str(&mut model, "ab");
    assert_eq!(update(&mut model, KeyEvent::Backspace), None);
    assert_eq!(model.buffer, "a");
    assert_eq!(model.cursor_pos.x, 1);
}

#[test]
fn backspace_in_middle_removes_before_cursor() {
    let mut model = editor_with(&[]);
    type_str(&mut model, "abc");
    update(&mut model, KeyEvent::Left);
    assert_eq!(update(&mut model, KeyEvent::Backspace), None);
    assert_eq!(model.buffer, "ac");
    assert_eq!(model.cursor_pos.x, 1);
}

#[test]
fn backspace_on_empty_buffer_is_noop() {
    let mut model = editor_with(&["main.rs"]);
    assert_eq!(update(&mut model, KeyEvent::Backspace), None);
    assert_eq!(model.buffer, "");
    assert_eq!(model.cursor_pos.x, 0);
}

#[test]
fn interrupt_and_other_leave_model_alone() {
    let mut model = editor_with(&[]);
    type_str(&mut model, "ab");
    assert_eq!(update(&mut model, KeyEvent::Interrupt), None);
    assert_eq!(update(&mut model, KeyEvent::Other), None);
    assert_eq!(model.buffer, "ab");
    assert_eq!(model.cursor_pos.x, 2);
}

#[test]
fn cursor_stays_on_line_under_arbitrary_interleavings() {
    let mut model = editor_with(&["main.rs", "makefile", "mod.rs"]);
    let mut seed: u64 = 0x2545F4914F6CDD1D;
    for _ in 0..2000 {
        seed = seed.wrapping_mul(6364136223846793005).wrapping_add(1442695040888963407);
        let event = match (seed >> 33) % 6 {
            0 => KeyEvent::Left,
            1 => KeyEvent::Right,
            2 => KeyEvent::Backspace,
            3 => KeyEvent::Char((b'a' + ((seed >> 40) % 26) as u8) as char),
            4 => KeyEvent::Char('.'),
            _ => KeyEvent::Other,
        };
        update(&mut model, event);
        let len = model.buffer.chars().count();
        assert!(model.cursor_pos.x <= len);
        if let Some(s) = &model.suggestion {
            assert!(s.starts_with(&model.buffer));
        }
    }
}

#[test]
fn suggestion_scenario_ma_then_i_then_backspaces() {
    let mut model = editor_with(&["main.rs", "makefile", "mod.rs"]);
    type_str(&mut model, "ma");
    assert_eq!(model.suggestion.as_deref(), Some("main.rs"));
    type_str(&mut model, "i");
    assert_eq!(model.suggestion.as_deref(), Some("main.rs"));
    update(&mut model, KeyEvent::Backspace);
    update(&mut model, KeyEvent::Backspace);
    assert_eq!(model.buffer, "m");
    assert_eq!(model.suggestion.as_deref(), Some("main.rs"));
}

#[test]
fn typing_full_entry_keeps_suggestion_at_every_unique_prefix() {
    let entry = "makefile";
    let mut model = editor_with(&["main.rs", "makefile", "mod.rs"]);
    for (i, c) in entry.chars().enumerate() {
        update(&mut model, KeyEvent::Char(c));
        let typed: String = entry.chars().take(i + 1).collect();
        assert_eq!(model.buffer, typed);
        let matches: Vec<&&str> = ["main.rs", "makefile", "mod.rs"]
            .iter()
            .filter(|e| e.starts_with(&typed))
            .collect();
        if matches.len() == 1 {
            assert_eq!(model.suggestion.as_deref(), Some(entry));
        }
    }
    assert_eq!(model.buffer, entry);
    assert_eq!(model.suggestion.as_deref(), Some(entry));
}

#[test]
fn no_suggestion_when_nothing_matches() {
    let mut model = editor_with(&["main.rs", "makefile"]);
    type_str(&mut model, "z");
    assert_eq!(model.suggestion, None);
}

#[test]
fn suggestion_cleared_when_buffer_empties() {
    let mut model = editor_with(&["main.rs"]);
    type_str(&mut model, "m");
    assert_eq!(model.suggestion.as_deref(), Some("main.rs"));
    update(&mut model, KeyEvent::Backspace);
    assert_eq!(model.buffer, "");
    assert_eq!(model.suggestion, None);
}

#[test]
fn update_suggestion_recomputes_with_range_query() {
    let mut model = Readline {
        cursor_pos: Position::origin(),
        buffer: "ma".to_string(),
        dir_entries: build_index(vec![
            "mod.rs".to_string(),
            "makefile".to_string(),
            "main.rs".to_string(),
        ]),
        suggestion: None,
    };
    model.update_suggestion();
    assert_eq!(model.suggestion.as_deref(), Some("main.rs"));
}

#[test]
fn update_suggestion_keeps_still_valid_suggestion() {
    let mut model = Readline {
        cursor_pos: Position::origin(),
        buffer: "ma".to_string(),
        dir_entries: build_index(vec!["main.rs".to_string(), "makefile".to_string()]),
        suggestion: Some("makefile".to_string()),
    };
    model.update_suggestion();
    assert_eq!(model.suggestion.as_deref(), Some("makefile"));
}

#[test]
fn render_plan_shows_suggestion_tail_and_cursor_move() {
    let mut model = editor_with(&["main.rs", "makefile", "mod.rs"]);
    type_str(&mut model, "ma");
    let plan = model.render_plan();
    assert_eq!(plan.text, "ma");
    assert_eq!(plan.suffix.as_deref(), Some("in.rs"));
    assert_eq!(plan.cursor_back, 5);
}

#[test]
fn render_plan_without_suggestion_moves_back_from_line_end() {
    let mut model = editor_with(&[]);
    type_str(&mut model, "ab");
    let plan = model.render_plan();
    assert_eq!(plan.text, "ab");
    assert!(plan.suffix.is_none());
    assert_eq!(plan.cursor_back, 0);
    update(&mut model, KeyEvent::Left);
    let plan = model.render_plan();
    assert_eq!(plan.cursor_back, 1);
}

#[test]
fn mvu_pairs_model_with_update_function() {
    let mut pair = ModelVieUpdate::new(
        editor_with(&["main.rs"]),
        update as fn(&mut Readline, KeyEvent) -> Option<String>,
    );
    assert_eq!((pair.update)(&mut pair.model, KeyEvent::Char('m')), None);
    assert_eq!(pair.model.buffer, "m");
    assert_eq!(
        (pair.update)(&mut pair.model, KeyEvent::Submit).as_deref(),
        Some("m")
    );
}
