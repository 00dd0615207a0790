use aide::session::{
    clean_sd_prompt, download_progress, parse_clear_target, with_active_theme, with_relevant_facts,
    ClearTarget,
};
use aide::theme::{dracula, gruvbox};
use crossterm::style::Color;

#[test]
fn theme_terminal_colours() {
    let g = gruvbox();
    assert_eq!(g.fg_color(), Color::Rgb { r: 0xeb, g: 0xdb, b: 0xb2 });
    assert_eq!(g.h1_color(), Color::Rgb { r: 0xfe, g: 0x80, b: 0x19 });
    assert_eq!(g.user_bg_color(), Color::Rgb { r: 0x3c, g: 0x38, b: 0x36 });
    assert_eq!(dracula().user_fg_color(), Color::Rgb { r: 0xf8, g: 0xf8, b: 0xf2 });
    let mut t = gruvbox();
    t.fg = "oops".to_string();
    assert_eq!(t.fg_color(), Color::Rgb { r: 255, g: 255, b: 255 });
}

#[test]
fn relevant_facts_are_appended() {
    assert_eq!(with_relevant_facts("P", &[]), "P");
    assert_eq!(
        with_relevant_facts("P", &["a".to_string(), "b".to_string()]),
        "P\nRelevant facts: a; b"
    );
}

#[test]
fn active_theme_is_appended() {
    assert_eq!(with_active_theme("Hi.", "nord"), "Hi. Active theme: nord.");
}

#[test]
fn clear_targets_by_name() {
    assert!(matches!(parse_clear_target("all"), Some(ClearTarget::All)));
    assert!(matches!(parse_clear_target("config"), Some(ClearTarget::Config)));
    assert!(parse_clear_target("everything").is_none());
}

#[test]
fn sd_prompt_cleaning() {
    assert_eq!(clean_sd_prompt("  a red\nfox\r\n "), "a red fox");
    assert_eq!(clean_sd_prompt(""), "");
}

#[test]
fn download_progress_is_capped() {
    assert_eq!(download_progress(10, 5, 100), 15);
    assert_eq!(download_progress(90, 20, 100), 100);
    assert_eq!(download_progress(0, 7, 0), 0);
}
