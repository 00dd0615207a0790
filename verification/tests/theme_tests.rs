use aide::theme::{
    all_themes, builtin_themes, catppuccin, copy_theme, dracula, everforest, find_named_theme,
    get_theme, gruvbox, is_builtin_theme, is_valid_hex, kanagawa,
    nord, parse_hex, rose_pine, theme_position, tokyonight, upsert_custom_theme,
    validate_theme_name, Theme, ThemeNameError,
};

fn custom(name: &str, fg: &str) -> Theme {
    let mut t = gruvbox();
    t.name = name.to_string();
    t.fg = fg.to_string();
    t
}

#[test]
fn parse_hex_reads_rrggbb() {
    assert_eq!(parse_hex("#ff8000"), (255, 128, 0));
    assert_eq!(parse_hex("#0A0b0C"), (10, 11, 12));
}

#[test]
fn parse_hex_without_or_with_many_hashes() {
    assert_eq!(parse_hex("ebdbb2"), (0xeb, 0xdb, 0xb2));
    assert_eq!(parse_hex("###123456"), (0x12, 0x34, 0x56));
}

#[test]
fn parse_hex_falls_back_to_white() {
    assert_eq!(parse_hex("#fff"), (255, 255, 255));
    assert_eq!(parse_hex("#gg0000"), (255, 255, 255));
    assert_eq!(parse_hex(""), (255, 255, 255));
    assert_eq!(parse_hex("#1234567"), (255, 255, 255));
    assert_eq!(parse_hex("#-10000"), (255, 255, 255));
}

#[test]
fn parse_hex_rejects_signed_pairs() {
    assert_eq!(parse_hex("+f+a+1"), (255, 255, 255));
    assert_eq!(parse_hex("#+f+f+f"), (255, 255, 255));
    assert_eq!(parse_hex("#ff+fff"), (255, 255, 255));
}

#[test]
fn parse_hex_non_ascii_is_white() {
    assert_eq!(parse_hex("é1234"), (255, 255, 255));
    assert_eq!(parse_hex("#aé€"), (255, 255, 255));
    assert_eq!(parse_hex("aé123"), (255, 255, 255));
    assert_eq!(parse_hex("#1é234"), (255, 255, 255));
    assert_eq!(parse_hex("#é"), (255, 255, 255));
}

#[test]
fn valid_hex_needs_hash_and_six_digits() {
    assert!(is_valid_hex("#a0B9ff"));
    assert!(!is_valid_hex("a0B9ff"));
    assert!(!is_valid_hex("#a0B9f"));
    assert!(!is_valid_hex("#a0B9fg"));
    assert!(!is_valid_hex("#a0B9fff"));
}

#[test]
fn builtin_themes_in_display_order() {
    let names: Vec<String> = builtin_themes().into_iter().map(|t| t.name).collect();
    assert_eq!(
        names,
        vec!["gruvbox", "tokyonight", "catppuccin", "rose-pine", "kanagawa", "everforest", "nord", "dracula"]
    );
}

#[test]
fn builtin_theme_values() {
    let g = gruvbox();
    assert_eq!(g.fg, "#ebdbb2");
    assert_eq!(g.h1, "#fe8019");
    assert_eq!(g.syntax_theme, "base16-ocean.dark");
    assert_eq!(tokyonight().user_fg, "#c0caf5");
    assert_eq!(catppuccin().bullet, "#f5bde6");
    assert_eq!(rose_pine().code_bg, "#191724");
    assert_eq!(kanagawa().bold, "#e82424");
    assert_eq!(everforest().italic, "#7fbbb3");
    assert_eq!(nord().user_fg, "#eceff4");
    assert_eq!(dracula().syntax_theme, "base16-eighties.dark");
}

#[test]
fn all_themes_appends_custom_after_builtin() {
    let c = vec![custom("mine", "#000000")];
    let all = all_themes(&c);
    assert_eq!(all.len(), 9);
    assert_eq!(all[8].name, "mine");
    assert_eq!(all[0].name, "gruvbox");
}

#[test]
fn get_theme_finds_builtin_and_custom() {
    let c = vec![custom("mine", "#010203")];
    assert_eq!(get_theme("nord", &c).name, "nord");
    let t = get_theme("mine", &c);
    assert_eq!(t.name, "mine");
    assert_eq!(t.fg, "#010203");
}

#[test]
fn get_theme_unknown_is_gruvbox() {
    let t = get_theme("no-such-theme", &[]);
    assert_eq!(t.name, "gruvbox");
}

#[test]
fn builtin_name_wins_over_custom() {
    let c = vec![custom("dracula", "#123123")];
    let t = get_theme("dracula", &c);
    assert_eq!(t.fg, "#f8f8f2");
}

#[test]
fn find_named_theme_none_when_missing() {
    assert!(find_named_theme("missing", &[]).is_none());
    assert_eq!(find_named_theme("kanagawa", &[]).unwrap().fg, "#dcd7ba");
}

#[test]
fn upsert_replaces_same_name_and_appends() {
    let mut c = vec![custom("a", "#000001"), custom("b", "#000002"), custom("a", "#000003")];
    upsert_custom_theme(&mut c, custom("a", "#00000f"));
    let names: Vec<&str> = c.iter().map(|t| t.name.as_str()).collect();
    assert_eq!(names, vec!["b", "a"]);
    assert_eq!(c[1].fg, "#00000f");
}

#[test]
fn saved_theme_is_selected_afterwards() {
    let mut c = vec![custom("solar", "#111111")];
    upsert_custom_theme(&mut c, custom("solar", "#222222"));
    assert_eq!(get_theme("solar", &c).fg, "#222222");
    assert_eq!(c.iter().filter(|t| t.name == "solar").count(), 1);
}

#[test]
fn validate_theme_name_cases() {
    assert_eq!(validate_theme_name("  ocean  ").ok(), Some("ocean".to_string()));
    assert!(matches!(validate_theme_name("   "), Err(ThemeNameError::Empty)));
    assert!(matches!(validate_theme_name(" nord "), Err(ThemeNameError::BuiltIn)));
}

#[test]
fn builtin_theme_names_recognised() {
    assert!(is_builtin_theme("rose-pine"));
    assert!(!is_builtin_theme("rose_pine"));
}

#[test]
fn theme_position_first_match_or_zero() {
    let all = all_themes(&[custom("x", "#000000")]);
    assert_eq!(theme_position(&all, "catppuccin"), 2);
    assert_eq!(theme_position(&all, "x"), 8);
    assert_eq!(theme_position(&all, "none"), 0);
}

#[test]
fn copy_theme_keeps_fields() {
    let t = copy_theme(&tokyonight());
    assert_eq!(t.name, "tokyonight");
    assert_eq!(t.code_bg, "#1a1b2e");
}

#[test]
fn valid_colours_are_read_exactly() {
    for s in ["#a0B9ff", "#000000", "#FfFfFf", "#123abc"] {
        assert!(is_valid_hex(s));
        let v = u32::from_str_radix(&s[1..], 16).unwrap();
        assert_eq!(parse_hex(s), ((v >> 16) as u8, (v >> 8) as u8, v as u8));
    }
}
