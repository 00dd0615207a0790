use aide::highlight::{highlight_code_block, split_lines, CodeHighlighter};

#[test]
fn split_lines_keeps_endings() {
    assert_eq!(split_lines("foo\nbar\nbaz"), vec!["foo\n", "bar\n", "baz"]);
    assert_eq!(split_lines("a\n"), vec!["a\n"]);
    assert!(split_lines("").is_empty());
    assert_eq!(split_lines("\n\n"), vec!["\n", "\n"]);
}

#[test]
fn highlighting_colours_code_and_resets() {
    let hl = CodeHighlighter::with_syntax_theme("base16-ocean.dark");
    assert_eq!(hl.syntax_theme(), "base16-ocean.dark");
    let out = hl.highlight("fn main() {}\n", "rs");
    assert!(out.ends_with("\x1b[0m"));
    assert!(out.contains("\x1b[38;2;"));
    assert!(out.contains("main"));
}

#[test]
fn empty_code_is_just_the_reset() {
    let hl = CodeHighlighter::with_syntax_theme("no-such-theme");
    assert_eq!(hl.highlight("", "rs"), "\x1b[0m");
    assert_eq!(hl.highlight("", ""), "\x1b[0m");
}

#[test]
fn unknown_language_highlights_as_plain_text() {
    let hl = CodeHighlighter::with_syntax_theme("InspiredGitHub");
    let out = hl.highlight("plain words\n", "not-a-language");
    assert!(out.contains("plain words"));
    assert!(out.ends_with("\x1b[0m"));
}

#[test]
fn free_function_matches_highlighter() {
    let ss = syntect::parsing::SyntaxSet::load_defaults_newlines();
    let ts = syntect::highlighting::ThemeSet::load_defaults();
    let hl = CodeHighlighter::with_syntax_theme("Solarized (dark)");
    assert_eq!(
        highlight_code_block("let x = 1;\n", "rust", "Solarized (dark)", &ss, &ts),
        hl.highlight("let x = 1;\n", "rust")
    );
}

#[test]
fn missing_themes_fall_back_to_first_theme() {
    let ss = syntect::parsing::SyntaxSet::load_defaults_newlines();
    let mut ts = syntect::highlighting::ThemeSet::load_defaults();
    ts.themes.remove("base16-ocean.dark");
    let first = ts.themes.keys().next().unwrap().clone();
    assert_eq!(
        highlight_code_block("let x = 1;\n", "rust", "missing", &ss, &ts),
        highlight_code_block("let x = 1;\n", "rust", &first, &ss, &ts)
    );
}

fn by_hand(code: &str, token: &str, theme: &str) -> String {
    let ss = syntect::parsing::SyntaxSet::load_defaults_newlines();
    let ts = syntect::highlighting::ThemeSet::load_defaults();
    let syntax = ss.find_syntax_by_token(token).unwrap();
    let mut h = syntect::easy::HighlightLines::new(syntax, &ts.themes[theme]);
    let mut out = String::new();
    for line in syntect::util::LinesWithEndings::from(code) {
        let ranges = h.highlight_line(line, &ss).unwrap();
        out.push_str(&syntect::util::as_24_bit_terminal_escaped(&ranges, false));
    }
    out.push_str("\x1b[0m");
    out
}

#[test]
fn block_is_each_line_escaped_then_reset() {
    let code = "fn main() {\n    let s = \"a\";\n}\n";
    let hl = CodeHighlighter::with_syntax_theme("InspiredGitHub");
    assert_eq!(hl.highlight(code, "rs"), by_hand(code, "rs", "InspiredGitHub"));
}

#[test]
fn unknown_theme_uses_ocean_dark() {
    let code = "x = [1, 2]\n";
    let hl = CodeHighlighter::with_syntax_theme("no-such-theme");
    assert_eq!(hl.highlight(code, "py"), by_hand(code, "py", "base16-ocean.dark"));
    let other = CodeHighlighter::with_syntax_theme("Solarized (light)");
    assert_ne!(other.highlight(code, "py"), hl.highlight(code, "py"));
}
