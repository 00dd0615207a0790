use aide::input::{next_char, prev_char, EditKey, EditOutcome, LineEditor};

fn themes() -> Vec<String> {
    ["gruvbox", "tokyonight", "catppuccin", "rose-pine", "kanagawa", "everforest", "nord", "dracula"]
        .iter()
        .map(|s| s.to_string())
        .collect()
}

fn type_text(ed: &mut LineEditor, s: &str, th: &Vec<String>) {
    for c in s.chars() {
        assert!(matches!(ed.step(EditKey::Char(c), th), EditOutcome::Continue));
    }
}

fn submitted(o: EditOutcome) -> Option<String> {
    match o {
        EditOutcome::Submit(s) => Some(s),
        _ => None,
    }
}

#[test]
fn prev_and_next_char_on_byte_offsets() {
    let s = "aé€b";
    assert_eq!(prev_char(0, s), 0);
    assert_eq!(prev_char(3, s), 1);
    assert_eq!(prev_char(6, s), 3);
    assert_eq!(next_char(1, s), 3);
    assert_eq!(next_char(3, s), 6);
    assert_eq!(next_char(7, s), 7);
    assert_eq!(next_char(99, s), 7);
}

#[test]
fn typing_then_enter_submits() {
    let th = themes();
    let mut ed = LineEditor::new();
    type_text(&mut ed, "hi there", &th);
    assert_eq!(ed.buffer(), "hi there");
    assert_eq!(ed.cursor(), 8);
    assert_eq!(submitted(ed.step(EditKey::Enter, &th)), Some("hi there".to_string()));
    assert_eq!(ed.buffer(), "");
}

#[test]
fn type_then_backspace_restores() {
    let th = themes();
    let mut ed = LineEditor::new();
    type_text(&mut ed, "ab", &th);
    ed.step(EditKey::Char('é'), &th);
    ed.step(EditKey::Backspace, &th);
    assert_eq!(ed.buffer(), "ab");
    assert_eq!(ed.cursor(), 2);
}

#[test]
fn left_then_right_and_editing_in_middle() {
    let th = themes();
    let mut ed = LineEditor::new();
    type_text(&mut ed, "ac", &th);
    ed.step(EditKey::Left, &th);
    ed.step(EditKey::Char('b'), &th);
    assert_eq!(ed.buffer(), "abc");
    assert_eq!(ed.cursor(), 2);
    ed.step(EditKey::Home, &th);
    ed.step(EditKey::Delete, &th);
    assert_eq!(ed.buffer(), "bc");
    ed.step(EditKey::End, &th);
    assert_eq!(ed.cursor(), 2);
    ed.step(EditKey::Right, &th);
    assert_eq!(ed.cursor(), 2);
}

#[test]
fn interrupt_cancels() {
    let th = themes();
    let mut ed = LineEditor::new();
    type_text(&mut ed, "abc", &th);
    assert!(matches!(ed.step(EditKey::Interrupt, &th), EditOutcome::Cancel));
}

#[test]
fn escape_without_menu_submits_empty_and_with_menu_clears() {
    let th = themes();
    let mut ed = LineEditor::new();
    type_text(&mut ed, "abc", &th);
    assert_eq!(submitted(ed.step(EditKey::Esc, &th)), Some(String::new()));
    type_text(&mut ed, "/he", &th);
    assert!(matches!(ed.step(EditKey::Esc, &th), EditOutcome::Continue));
    assert_eq!(ed.buffer(), "");
}

#[test]
fn slash_menu_filters_and_enter_picks_highlighted() {
    let th = themes();
    let mut ed = LineEditor::new();
    type_text(&mut ed, "/m", &th);
    let view = ed.menu(&th);
    let names: Vec<&str> = view.filtered.iter().map(|&i| view.items[i].0.as_str()).collect();
    assert_eq!(names, vec!["/memory", "/models"]);
    assert_eq!(view.selected, Some(0));
    ed.step(EditKey::Down, &th);
    assert_eq!(submitted(ed.step(EditKey::Enter, &th)), Some("/models".to_string()));
}

#[test]
fn up_wraps_to_last_row_and_theme_opens_submenu() {
    let th = themes();
    let mut ed = LineEditor::new();
    type_text(&mut ed, "/", &th);
    ed.step(EditKey::Up, &th);
    assert!(matches!(ed.step(EditKey::Enter, &th), EditOutcome::Continue));
    assert_eq!(ed.buffer(), "/theme ");
    assert_eq!(ed.cursor(), 7);
}

#[test]
fn theme_submenu_enter_submits_theme_switch() {
    let th = themes();
    let mut ed = LineEditor::new();
    type_text(&mut ed, "/theme no", &th);
    let view = ed.menu(&th);
    assert_eq!(view.filtered, vec![6]);
    assert_eq!(view.preview_theme, Some(6));
    assert_eq!(submitted(ed.step(EditKey::Enter, &th)), Some("/theme nord".to_string()));
}

#[test]
fn tab_completes_command() {
    let th = themes();
    let mut ed = LineEditor::new();
    type_text(&mut ed, "/th", &th);
    ed.step(EditKey::Tab, &th);
    assert_eq!(ed.buffer(), "/theme ");
    type_text(&mut ed, "", &th);
    let mut ed2 = LineEditor::new();
    type_text(&mut ed2, "/sy", &th);
    ed2.step(EditKey::Tab, &th);
    assert_eq!(ed2.buffer(), "/system");
    assert_eq!(ed2.cursor(), 7);
}

#[test]
fn clear_submenu_lists_targets() {
    let th = themes();
    let mut ed = LineEditor::new();
    type_text(&mut ed, "/clear c", &th);
    let view = ed.menu(&th);
    let names: Vec<&str> = view.filtered.iter().map(|&i| view.items[i].0.as_str()).collect();
    assert_eq!(names, vec!["chat", "config"]);
    assert_eq!(submitted(ed.step(EditKey::Enter, &th)), Some("chat".to_string()));
}

#[test]
fn lone_slash_with_no_match_resets() {
    let th = themes();
    let mut ed = LineEditor::new();
    type_text(&mut ed, "/zz", &th);
    assert_eq!(submitted(ed.step(EditKey::Enter, &th)), Some("/zz".to_string()));
}

#[test]
fn char_steps_undo_each_other() {
    for s in ["aé", "héllo wörld", "日本語", "a😀b", "", "plain"] {
        let mut pos = 0;
        while pos < s.len() {
            let n = next_char(pos, s);
            assert!(s.is_char_boundary(n));
            assert_eq!(prev_char(n, s), pos);
            pos = n;
        }
        for q in 1..=s.len() {
            if s.is_char_boundary(q) {
                let p = prev_char(q, s);
                assert!(s.is_char_boundary(p));
                assert_eq!(next_char(p, s), q);
            }
        }
    }
    assert_eq!(next_char(1, "aé"), 3);
    assert_eq!(prev_char(3, "aé"), 1);
}
