use aide::input::EditOutcome;
use aide::prompt::{HistoryPrompt, PromptKey};

fn typed(p: &mut HistoryPrompt, s: &str) {
    for c in s.chars() {
        assert!(matches!(p.step(PromptKey::Char(c)), EditOutcome::Continue));
    }
}

fn submitted(o: EditOutcome) -> Option<String> {
    match o {
        EditOutcome::Submit(s) => Some(s),
        _ => None,
    }
}

fn hist(v: &[&str]) -> Vec<String> {
    v.iter().map(|s| s.to_string()).collect()
}

#[test]
fn enter_submits_typed_text() {
    let mut p = HistoryPrompt::new(&[]);
    typed(&mut p, "hello");
    assert_eq!(submitted(p.step(PromptKey::Enter)), Some("hello".to_string()));
}

#[test]
fn dropdown_only_highlights_after_navigation() {
    let mut p = HistoryPrompt::new(&[]);
    typed(&mut p, "/m");
    let m = p.menu();
    let names: Vec<&str> = m.entries.iter().map(|e| e.0.as_str()).collect();
    assert_eq!(names, vec!["/memory", "/models"]);
    assert_eq!(m.selected, None);
    assert_eq!(submitted(p.step(PromptKey::Enter)), Some("/m".to_string()));

    let mut q = HistoryPrompt::new(&[]);
    typed(&mut q, "/m");
    q.step(PromptKey::Up);
    assert_eq!(q.menu().selected, Some(1));
    assert_eq!(submitted(q.step(PromptKey::Enter)), Some("/models".to_string()));
}

#[test]
fn down_from_nothing_selects_first_and_wraps() {
    let mut p = HistoryPrompt::new(&[]);
    typed(&mut p, "/");
    p.step(PromptKey::Down);
    assert_eq!(p.menu().selected, Some(0));
    for _ in 0..6 {
        p.step(PromptKey::Down);
    }
    assert_eq!(p.menu().selected, Some(0));
}

#[test]
fn tab_completes_first_or_selected() {
    let mut p = HistoryPrompt::new(&[]);
    typed(&mut p, "/s");
    p.step(PromptKey::Tab);
    assert_eq!(p.buffer(), "/system");
    assert_eq!(p.cursor(), 7);
    assert_eq!(p.menu().selected, Some(0));
}

#[test]
fn lone_slash_is_cleared_on_enter() {
    let mut p = HistoryPrompt::new(&[]);
    typed(&mut p, "/");
    p.step(PromptKey::Esc);
    assert_eq!(p.buffer(), "");
    typed(&mut p, " /");
    assert!(matches!(p.step(PromptKey::Enter), EditOutcome::Continue));
    assert_eq!(p.buffer(), "");
}

#[test]
fn history_recall_up_and_down() {
    let h = hist(&["first", "second", "third"]);
    let mut p = HistoryPrompt::new(&h);
    typed(&mut p, "draft");
    p.step(PromptKey::Up);
    assert_eq!(p.buffer(), "third");
    assert_eq!(p.cursor(), 5);
    p.step(PromptKey::Up);
    p.step(PromptKey::Up);
    p.step(PromptKey::Up);
    assert_eq!(p.buffer(), "first");
    p.step(PromptKey::Down);
    assert_eq!(p.buffer(), "second");
    p.step(PromptKey::Down);
    p.step(PromptKey::Down);
    assert_eq!(p.buffer(), "");
    p.step(PromptKey::Down);
    assert_eq!(p.buffer(), "");
}

#[test]
fn up_without_history_does_nothing() {
    let mut p = HistoryPrompt::new(&[]);
    typed(&mut p, "abc");
    p.step(PromptKey::Up);
    assert_eq!(p.buffer(), "abc");
}

#[test]
fn ctrl_shortcuts() {
    let mut p = HistoryPrompt::new(&[]);
    typed(&mut p, "one two  ");
    p.step(PromptKey::DeleteWord);
    assert_eq!(p.buffer(), "one ");
    assert_eq!(p.cursor(), 4);
    typed(&mut p, "three");
    p.step(PromptKey::LineStart);
    assert_eq!(p.cursor(), 0);
    p.step(PromptKey::LineEnd);
    assert_eq!(p.cursor(), 9);
    p.step(PromptKey::Left);
    p.step(PromptKey::Left);
    p.step(PromptKey::KillToStart);
    assert_eq!(p.buffer(), "ee");
    assert_eq!(p.cursor(), 0);
    p.step(PromptKey::Delete);
    assert_eq!(p.buffer(), "e");
}

#[test]
fn delete_word_without_space_clears_to_start() {
    let mut p = HistoryPrompt::new(&[]);
    typed(&mut p, "word");
    p.step(PromptKey::DeleteWord);
    assert_eq!(p.buffer(), "");
}

#[test]
fn end_of_input_cancels_any_line() {
    let mut p = HistoryPrompt::new(&[]);
    typed(&mut p, "x");
    assert!(matches!(p.step(PromptKey::EndOfInput), EditOutcome::Cancel));
    let mut e = HistoryPrompt::new(&[]);
    assert!(matches!(e.step(PromptKey::EndOfInput), EditOutcome::Cancel));
    let mut q = HistoryPrompt::new(&[]);
    typed(&mut q, "abc");
    assert!(matches!(q.step(PromptKey::Interrupt), EditOutcome::Cancel));
}

#[test]
fn unicode_editing_by_characters() {
    let mut p = HistoryPrompt::new(&[]);
    typed(&mut p, "héé");
    p.step(PromptKey::Left);
    p.step(PromptKey::Backspace);
    assert_eq!(p.buffer(), "hé");
    assert_eq!(p.cursor(), 1);
}

#[test]
fn up_then_down_leaves_empty_prompt() {
    let h = hist(&["earlier question"]);
    let mut p = HistoryPrompt::new(&h);
    typed(&mut p, "draft");
    p.step(PromptKey::Up);
    assert_eq!(p.buffer(), "earlier question");
    p.step(PromptKey::Down);
    assert_eq!(p.buffer(), "");
    assert_eq!(p.cursor(), 0);
}
