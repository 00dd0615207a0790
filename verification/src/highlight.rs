//! Syntax highlighting of code blocks for the terminal, with syntect doing
//! the highlighting itself.
use vstd::prelude::*;
use vstd::string::StrSliceExecFns;
use syntect::easy::HighlightLines;
use syntect::highlighting::{Style, ThemeSet};
use syntect::highlighting::Theme as SyntaxTheme;
use syntect::parsing::{SyntaxReference, SyntaxSet};
use crate::text::{chars_of, concat_str, find_from, find_from_exec, lemma_find_from, string_of};

verus! {

#[verifier::external_type_specification]
#[verifier::external_body]
pub struct ExSyntaxSet(SyntaxSet);

#[verifier::external_type_specification]
#[verifier::external_body]
pub struct ExThemeSet(ThemeSet);

#[verifier::external_type_specification]
#[verifier::external_body]
pub struct ExSyntaxReference(SyntaxReference);

#[verifier::external_type_specification]
#[verifier::external_body]
pub struct ExSyntectTheme(SyntaxTheme);

#[verifier::external_type_specification]
#[verifier::external_body]
pub struct ExStyle(Style);

#[verifier::external_type_specification]
#[verifier::external_body]
pub struct ExHighlightLines<'a>(HighlightLines<'a>);

/// The names of the syntaxes that a syntax set holds.
pub uninterp spec fn syntax_names(ss: SyntaxSet) -> Set<Seq<char>>;

/// The theme map of a theme set: each theme under its name.
pub uninterp spec fn themes_of(ts: ThemeSet) -> Map<Seq<char>, SyntaxTheme>;

/// The least key of the theme map of a theme set (meaningful when it has one).
pub uninterp spec fn first_theme_key(ts: ThemeSet) -> Seq<char>;

/// The plain-text syntax of a syntax set.
pub uninterp spec fn plain_syntax(ss: SyntaxSet) -> SyntaxReference;

/// The syntax that a syntax set finds for a token (a file extension or a
/// name), if any.
pub uninterp spec fn token_syntax(ss: SyntaxSet, token: Seq<char>) -> Option<SyntaxReference>;

/// What a line highlighter stands for: the syntax and the theme it was made
/// with, and each line it has been given so far with the syntax set given
/// beside it, oldest first.
pub uninterp spec fn highlighter_state(h: HighlightLines) -> (
    SyntaxReference,
    SyntaxTheme,
    Seq<(SyntaxSet, Seq<char>)>,
);

/// The styled pieces of `line` (or `None` on a parse error), highlighted in
/// `syntax` with `theme` after the lines `earlier`, with the syntax set `ss`.
pub uninterp spec fn line_ranges(
    syntax: SyntaxReference,
    theme: SyntaxTheme,
    earlier: Seq<(SyntaxSet, Seq<char>)>,
    ss: SyntaxSet,
    line: Seq<char>,
) -> Option<Seq<(Style, Seq<char>)>>;

/// The text of styled pieces with their 24-bit foreground colour codes.
pub uninterp spec fn escaped(ranges: Seq<(Style, Seq<char>)>) -> Seq<char>;

/// The names of the themes that a theme set holds.
pub open spec fn theme_names(ts: ThemeSet) -> Set<Seq<char>> {
    themes_of(ts).dom()
}

/// The name of the syntax that every bundled syntax set holds.
pub open spec fn plain_text_name() -> Seq<char> {
    "Plain Text"@
}

/// The theme used when the requested one is missing.
pub open spec fn fallback_theme_name() -> Seq<char> {
    "base16-ocean.dark"@
}

/// The reset sequence that ends every highlighted block.
pub open spec fn reset_sequence() -> Seq<char> {
    seq!['\u{1b}', '[', '0', 'm']
}

/// `SyntaxSet::load_defaults_newlines`: the syntaxes bundled with syntect, for
/// lines that keep their line ending. The contract claims that they include
/// the plain-text syntax, which syntect's documentation says every syntax set
/// should have; nothing else is stated of them.
#[verifier::external_body]
fn load_syntax_set() -> (r: SyntaxSet)
    ensures
        syntax_names(r).contains(plain_text_name()),
{
    SyntaxSet::load_defaults_newlines()
}

/// `ThemeSet::load_defaults`: the themes bundled with syntect. The contract
/// claims the keys its documentation lists; nothing is stated of the themes'
/// colours.
#[verifier::external_body]
fn load_theme_set() -> (r: ThemeSet)
    ensures
        theme_names(r).contains(fallback_theme_name()),
        theme_names(r).contains("base16-eighties.dark"@),
        theme_names(r).contains("base16-mocha.dark"@),
        theme_names(r).contains("base16-ocean.light"@),
        theme_names(r).contains("InspiredGitHub"@),
        theme_names(r).contains("Solarized (dark)"@),
        theme_names(r).contains("Solarized (light)"@),
{
    ThemeSet::load_defaults()
}

/// `SyntaxSet::find_syntax_plain_text`: the plain-text syntax, which must be
/// present (the call panics otherwise).
#[verifier::external_body]
fn plain_text_syntax(ss: &SyntaxSet) -> (r: &SyntaxReference)
    requires
        syntax_names(*ss).contains(plain_text_name()),
    ensures
        *r == plain_syntax(*ss),
{
    ss.find_syntax_plain_text()
}

/// `SyntaxSet::find_syntax_by_token`: the syntax found for `token` by file
/// extension or, failing that, by name; which one that is, is left to the
/// name `token_syntax`.
#[verifier::external_body]
fn syntax_by_token<'a>(ss: &'a SyntaxSet, token: &str) -> (r: Option<&'a SyntaxReference>)
    ensures
        match r {
            Some(s) => token_syntax(*ss, token@) == Some(*s),
            None => token_syntax(*ss, token@) is None,
        },
{
    ss.find_syntax_by_token(token)
}

/// `BTreeMap::get` on the theme map of `ts`: the theme stored under `name`,
/// present exactly when the name is a key.
#[verifier::external_body]
fn theme_by_name<'a>(ts: &'a ThemeSet, name: &str) -> (r: Option<&'a SyntaxTheme>)
    ensures
        r is Some <==> theme_names(*ts).contains(name@),
        r matches Some(t) ==> *t == themes_of(*ts)[name@],
{
    ts.themes.get(name)
}

/// `BTreeMap::first_key_value` on the theme map of `ts`: the entry with the
/// least key, present exactly when the map is not empty.
#[verifier::external_body]
fn first_theme<'a>(ts: &'a ThemeSet) -> (r: Option<(&'a String, &'a SyntaxTheme)>)
    ensures
        r is Some <==> theme_names(*ts) != Set::<Seq<char>>::empty(),
        r matches Some((k, t)) ==> {
            &&& k@ == first_theme_key(*ts)
            &&& theme_names(*ts).contains(k@)
            &&& *t == themes_of(*ts)[k@]
        },
{
    ts.themes.first_key_value()
}

/// `HighlightLines::new`: a highlighter for `syntax` in the colours of
/// `theme`, which has been given no line yet.
#[verifier::external_body]
fn new_highlighter<'a>(syntax: &SyntaxReference, theme: &'a SyntaxTheme) -> (r:
    HighlightLines<'a>)
    ensures
        highlighter_state(r) == (*syntax, *theme, Seq::<(SyntaxSet, Seq<char>)>::empty()),
{
    HighlightLines::new(syntax, theme)
}

/// `HighlightLines::highlight_line`: the styled pieces of one line, or `None`
/// where syntect reports a parse error. What they are is left to the name
/// `line_ranges`, over the highlighter's syntax, theme and earlier lines; the
/// highlighter then has this line among its earlier ones. syntect asks that
/// `ss` be the set the highlighter's syntax came from (it may panic
/// otherwise), so the highlighter's syntax must be one that `ss` gives out,
/// and every earlier line must have been read with `ss` too.
#[verifier::external_body]
fn highlight_line<'b>(h: &mut HighlightLines, line: &'b str, ss: &SyntaxSet) -> (r: Option<
    Vec<(Style, &'b str)>,
>)
    requires
        syntax_from_set(*ss, highlighter_state(*old(h)).0),
        forall|i: int|
            0 <= i < highlighter_state(*old(h)).2.len() ==> (#[trigger] highlighter_state(
                *old(h),
            ).2[i]).0 == *ss,
    ensures
        ({
            let (syntax, theme, earlier) = highlighter_state(*old(h));
            &&& highlighter_state(*final(h)) == (syntax, theme, earlier.push((*ss, line@)))
            &&& match r {
                Some(v) => line_ranges(syntax, theme, earlier, *ss, line@) == Some(
                    v@.map_values(|p: (Style, &str)| (p.0, p.1@)),
                ),
                None => line_ranges(syntax, theme, earlier, *ss, line@) is None,
            }
        }),
{
    match h.highlight_line(line, ss) {
        Ok(v) => Some(v),
        Err(_) => None,
    }
}

/// `as_24_bit_terminal_escaped` without background: the pieces with their
/// 24-bit foreground colour codes. The codes come from the pieces' styles,
/// which are opaque here, so the text is left to the name `escaped`.
#[verifier::external_body]
fn escape_24bit(ranges: &[(Style, &str)]) -> (r: String)
    ensures
        r@ == escaped(ranges@.map_values(|p: (Style, &str)| (p.0, p.1@))),
{
    syntect::util::as_24_bit_terminal_escaped(ranges, false)
}

/// The lines of `s[pos..]`, each with its line ending, as syntect's
/// `LinesWithEndings` gives them.
pub open spec fn lines_from(s: Seq<char>, pos: int) -> Seq<Seq<char>>
    decreases s.len() - pos,
{
    if pos < 0 || pos >= s.len() {
        seq![]
    } else {
        match find_from(s, seq!['\n'], pos) {
            Some(i) => {
                proof {
                    lemma_find_from(s, seq!['\n'], pos);
                }
                seq![s.subrange(pos, i + 1)] + lines_from(s, i + 1)
            },
            None => seq![s.subrange(pos, s.len() as int)],
        }
    }
}

/// The lines of `code`, as slices of it.
pub fn split_lines(code: &str) -> (r: Vec<&str>)
    ensures
        r@.map_values(|l: &str| l@) == lines_from(code@, 0),
{
    let v = chars_of(code);
    let nl: Vec<char> = vec!['\n'];
    let mut out: Vec<&str> = Vec::new();
    let mut pos: usize = 0;
    while pos < v.len()
        invariant
            v@ == code@,
            nl@ == seq!['\n'],
            pos <= v@.len(),
            out@.map_values(|l: &str| l@) + lines_from(v@, pos as int) == lines_from(v@, 0),
        decreases v.len() - pos,
    {
        let ghost before = out@;
        match find_from_exec(&v, &nl, pos) {
            Some(i) => {
                proof {
                    lemma_find_from(v@, seq!['\n'], pos as int);
                }
                out.push(code.substring_char(pos, i + 1));
                assert(out@.map_values(|l: &str| l@) + lines_from(v@, i + 1) =~= before.map_values(
                    |l: &str| l@,
                ) + lines_from(v@, pos as int));
                pos = i + 1;
            },
            None => {
                out.push(code.substring_char(pos, v.len()));
                assert(out@.map_values(|l: &str| l@) =~= before.map_values(|l: &str| l@)
                    + lines_from(v@, pos as int));
                pos = v.len();
            },
        }
    }
    assert(out@.map_values(|l: &str| l@) + lines_from(v@, pos as int) =~= out@.map_values(
        |l: &str| l@,
    ));
    out
}

/// Whether `syntax` is one that the syntax set `ss` gives out: its
/// plain-text syntax, or the one it finds for some token.
pub open spec fn syntax_from_set(ss: SyntaxSet, syntax: SyntaxReference) -> bool {
    syntax == plain_syntax(ss) || exists|t: Seq<char>| token_syntax(ss, t) == Some(syntax)
}

/// The syntax used for code in `lang`: the one its token names, else plain
/// text (always plain text for an empty `lang`).
pub open spec fn chosen_syntax(ss: SyntaxSet, lang: Seq<char>) -> SyntaxReference {
    if lang.len() == 0 {
        plain_syntax(ss)
    } else {
        match token_syntax(ss, lang) {
            Some(s) => s,
            None => plain_syntax(ss),
        }
    }
}

/// The theme used for the name `name`: that theme, else `base16-ocean.dark`,
/// else the theme with the least name.
pub open spec fn chosen_theme(ts: ThemeSet, name: Seq<char>) -> SyntaxTheme {
    if theme_names(ts).contains(name) {
        themes_of(ts)[name]
    } else if theme_names(ts).contains(fallback_theme_name()) {
        themes_of(ts)[fallback_theme_name()]
    } else {
        themes_of(ts)[first_theme_key(ts)]
    }
}

/// Each of `lines` with the syntax set `ss` beside it.
pub open spec fn fed_lines(ss: SyntaxSet, lines: Seq<Seq<char>>) -> Seq<(SyntaxSet, Seq<char>)> {
    lines.map_values(|l: Seq<char>| (ss, l))
}

/// The escaped text of `lines`, highlighted one after another with a fresh
/// highlighter for `syntax` and `theme`; a line that fails to parse adds
/// nothing.
pub open spec fn highlighted_lines(
    syntax: SyntaxReference,
    theme: SyntaxTheme,
    ss: SyntaxSet,
    lines: Seq<Seq<char>>,
) -> Seq<char>
    decreases lines.len(),
{
    if lines.len() == 0 {
        seq![]
    } else {
        let n = lines.len() - 1;
        let before = lines.take(n);
        highlighted_lines(syntax, theme, ss, before) + match line_ranges(
            syntax,
            theme,
            fed_lines(ss, before),
            ss,
            lines[n],
        ) {
            Some(ranges) => escaped(ranges),
            None => seq![],
        }
    }
}

/// The highlighted text of `code` in `lang` with the theme named `name`: its
/// lines in order, each escaped, then the reset sequence.
pub open spec fn highlighted_block(
    ss: SyntaxSet,
    ts: ThemeSet,
    name: Seq<char>,
    code: Seq<char>,
    lang: Seq<char>,
) -> Seq<char> {
    highlighted_lines(chosen_syntax(ss, lang), chosen_theme(ts, name), ss, lines_from(code, 0))
        + reset_sequence()
}

/// Highlight `code` written in `lang` for a 24-bit colour terminal, in the
/// colours of the syntect theme `syntax_theme` (or `base16-ocean.dark`, or
/// the first theme, when that one is missing). An empty `lang`, or one that
/// names no syntax, highlights as plain text. Lines that fail to parse are
/// left out; the result ends with the reset sequence.
pub fn highlight_code_block(
    code: &str,
    lang: &str,
    syntax_theme: &str,
    ss: &SyntaxSet,
    ts: &ThemeSet,
) -> (r: String)
    requires
        syntax_names(*ss).contains(plain_text_name()),
        theme_names(*ts) != Set::<Seq<char>>::empty(),
    ensures
        r@ == highlighted_block(*ss, *ts, syntax_theme@, code@, lang@),
{
    let syntax = if lang.is_empty() {
        plain_text_syntax(ss)
    } else {
        match syntax_by_token(ss, lang) {
            Some(s) => s,
            None => plain_text_syntax(ss),
        }
    };
    assert(*syntax == chosen_syntax(*ss, lang@));
    let theme = match theme_by_name(ts, syntax_theme) {
        Some(t) => t,
        None => {
            proof {
                reveal_strlit("base16-ocean.dark");
            }
            match theme_by_name(ts, "base16-ocean.dark") {
                Some(t) => t,
                None => match first_theme(ts) {
                    Some((_, t)) => t,
                    None => {
                        proof {
                            assert(false);
                        }
                        return string_of(&chars_of("\u{1b}[0m"));
                    },
                },
            }
        },
    };
    assert(*theme == chosen_theme(*ts, syntax_theme@));
    let ghost syn = *syntax;
    let ghost th = *theme;
    let mut h = new_highlighter(syntax, theme);
    let lines = split_lines(code);
    let ghost lv = lines@.map_values(|l: &str| l@);
    assert(syntax_from_set(*ss, syn)) by {
        if lang@.len() > 0 && token_syntax(*ss, lang@) is Some {
            assert(token_syntax(*ss, lang@) == Some(syn));
        }
    }
    assert(lv.len() == lines@.len());
    let mut out = String::new();
    let mut i: usize = 0;
    assert(lv.take(0) =~= Seq::<Seq<char>>::empty());
    assert(fed_lines(*ss, lv.take(0)) =~= Seq::<(SyntaxSet, Seq<char>)>::empty());
    while i < lines.len()
        invariant
            i <= lines@.len(),
            lv == lines@.map_values(|l: &str| l@),
            lv.len() == lines@.len(),
            out@ == highlighted_lines(syn, th, *ss, lv.take(i as int)),
            highlighter_state(h) == (syn, th, fed_lines(*ss, lv.take(i as int))),
            syntax_from_set(*ss, syn),
        decreases lines.len() - i,
    {
        let ghost before = out@;
        assert(lv.take(i + 1).take(i as int) =~= lv.take(i as int));
        assert(lv.take(i + 1)[i as int] == lines@[i as int]@);
        assert(fed_lines(*ss, lv.take(i as int)).push((*ss, lines@[i as int]@)) =~= fed_lines(
            *ss,
            lv.take(i + 1),
        ));
        match highlight_line(&mut h, lines[i], ss) {
            Some(ranges) => {
                let piece = escape_24bit(ranges.as_slice());
                out = concat_str(out.as_str(), piece.as_str());
            },
            None => {
                assert(out@ =~= before + Seq::<char>::empty());
            },
        }
        i = i + 1;
    }
    assert(lv.take(lines@.len() as int) =~= lv);
    let reset = string_of(&chars_of("\u{1b}[0m"));
    proof {
        reveal_strlit("\u{1b}[0m");
    }
    assert(reset@ =~= reset_sequence());
    concat_str(out.as_str(), reset.as_str())
}

/// A highlighter for code blocks: the bundled syntaxes and themes, and the
/// name of the syntect theme to use.
pub struct CodeHighlighter {
    ss: SyntaxSet,
    ts: ThemeSet,
    syntax_theme: String,
}

impl CodeHighlighter {
    #[verifier::type_invariant]
    closed spec fn inv(&self) -> bool {
        &&& syntax_names(self.ss).contains(plain_text_name())
        &&& theme_names(self.ts).contains(fallback_theme_name())
    }

    /// A highlighter over the bundled syntaxes and themes, using the theme `name`.
    pub fn with_syntax_theme(name: &str) -> (r: CodeHighlighter)
        ensures
            r.theme_name() == name@,
            syntax_names(r.syntaxes()).contains(plain_text_name()),
            theme_names(r.themes()).contains(fallback_theme_name()),
    {
        CodeHighlighter {
            ss: load_syntax_set(),
            ts: load_theme_set(),
            syntax_theme: string_of(&chars_of(name)),
        }
    }

    /// The name of the syntect theme in use.
    pub closed spec fn theme_name(&self) -> Seq<char> {
        self.syntax_theme@
    }

    /// The name of the syntect theme in use.
    pub fn syntax_theme(&self) -> (r: &str)
        ensures
            r@ == self.theme_name(),
    {
        self.syntax_theme.as_str()
    }

    /// The syntaxes this highlighter reads code with.
    pub closed spec fn syntaxes(&self) -> SyntaxSet {
        self.ss
    }

    /// The themes this highlighter chooses its colours from.
    pub closed spec fn themes(&self) -> ThemeSet {
        self.ts
    }

    /// Highlight `code` written in `lang`, as `highlight_code_block` does with
    /// this highlighter's syntaxes, themes and theme name.
    pub fn highlight(&self, code: &str, lang: &str) -> (r: String)
        ensures
            r@ == highlighted_block(self.syntaxes(), self.themes(), self.theme_name(), code@, lang@),
    {
        proof {
            use_type_invariant(self);
        }
        highlight_code_block(code, lang, self.syntax_theme.as_str(), &self.ss, &self.ts)
    }
}

} // verus!
