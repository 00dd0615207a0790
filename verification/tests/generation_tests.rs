use aide::generation::{Generation, CONTEXT_TOKENS};

#[test]
fn generation_collects_pieces_until_end_token() {
    let mut g = Generation::start(10, 512);
    assert!(g.wants_token());
    assert_eq!(g.position(), 10);
    assert!(g.accept(false, false, "Hel"));
    assert!(g.accept(false, false, "lo"));
    assert_eq!(g.position(), 12);
    assert!(!g.accept(true, false, "ignored"));
    assert!(!g.wants_token());
    assert!(!g.accept(false, false, "late"));
    assert_eq!(g.reply(), "Hello");
}

#[test]
fn generation_stops_on_request() {
    let mut g = Generation::start(3, 10);
    assert!(g.accept(false, false, "a"));
    assert!(!g.accept(false, true, "b"));
    assert!(!g.wants_token());
    assert_eq!(g.reply(), "a");
}

#[test]
fn generation_respects_token_limit() {
    let mut g = Generation::start(0, 2);
    assert!(g.accept(false, false, "x"));
    assert!(g.wants_token());
    assert!(g.accept(false, false, "y"));
    assert!(!g.wants_token());
    assert_eq!(g.reply(), "xy");
}

#[test]
fn generation_ends_when_context_is_full() {
    let mut g = Generation::start(CONTEXT_TOKENS - 1, 100);
    assert!(g.accept(false, false, "z"));
    assert!(!g.wants_token());
}

#[test]
fn no_tokens_allowed_or_produced() {
    let g = Generation::start(5, 0);
    assert!(!g.wants_token());
    assert_eq!(g.reply(), "The model did not generate any text. Please check the model files.");
    let mut g2 = Generation::start(5, -3);
    assert!(!g2.wants_token());
    let mut g3 = Generation::start(5, 4);
    assert!(!g3.accept(true, false, ""));
    assert_eq!(g3.reply(), "The model did not generate any text. Please check the model files.");
    assert!(!g2.accept(false, false, "q"));
}
