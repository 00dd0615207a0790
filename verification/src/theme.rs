//! Colour themes of the chat: the built-in ones, user-made ones, and how
//! a theme is found by name.
use vstd::prelude::*;
use crate::text::{chars_of, eq_lit, string_of, trim, trim_chars};
use vstd::string::StringSliceAdditionalSpecFns;
use crossterm::style::Color;
use vstd::utf8::encode_utf8;

verus! {

/// A colour theme. Colours are `#rrggbb` texts.
pub struct Theme {
    /// The theme's name.
    pub name: String,
    /// Normal text colour.
    pub fg: String,
    /// H1 heading.
    pub h1: String,
    /// H2-H6 headings.
    pub headers: String,
    /// Bold text.
    pub bold: String,
    /// Italic text.
    pub italic: String,
    /// Inline-code / code-block foreground.
    pub code_fg: String,
    /// Code-block background.
    pub code_bg: String,
    /// Bullet-point colour.
    pub bullet: String,
    /// User chat-bubble background.
    pub user_bg: String,
    /// User chat-bubble text.
    pub user_fg: String,
    /// Syntax-highlighting theme name for code blocks.
    pub syntax_theme: String,
}

/// A theme, over mathematical values.
pub struct ThemeInfo {
    pub name: Seq<char>,
    pub fg: Seq<char>,
    pub h1: Seq<char>,
    pub headers: Seq<char>,
    pub bold: Seq<char>,
    pub italic: Seq<char>,
    pub code_fg: Seq<char>,
    pub code_bg: Seq<char>,
    pub bullet: Seq<char>,
    pub user_bg: Seq<char>,
    pub user_fg: Seq<char>,
    pub syntax_theme: Seq<char>,
}

/// The value of a theme.
pub open spec fn theme_info(t: Theme) -> ThemeInfo {
    ThemeInfo {
        name: t.name@,
        fg: t.fg@,
        h1: t.h1@,
        headers: t.headers@,
        bold: t.bold@,
        italic: t.italic@,
        code_fg: t.code_fg@,
        code_bg: t.code_bg@,
        bullet: t.bullet@,
        user_bg: t.user_bg@,
        user_fg: t.user_fg@,
        syntax_theme: t.syntax_theme@,
    }
}

fn make_theme(name: &str, fg: &str, h1: &str, headers: &str, bold: &str, italic: &str, code_fg: &str, code_bg: &str, bullet: &str, user_bg: &str, user_fg: &str, syntax_theme: &str) -> (r: Theme)
    ensures
        theme_info(r) == (ThemeInfo { name: name@, fg: fg@, h1: h1@, headers: headers@, bold: bold@, italic: italic@, code_fg: code_fg@, code_bg: code_bg@, bullet: bullet@, user_bg: user_bg@, user_fg: user_fg@, syntax_theme: syntax_theme@ }),
{
    Theme { name: name.to_owned(), fg: fg.to_owned(), h1: h1.to_owned(), headers: headers.to_owned(), bold: bold.to_owned(), italic: italic.to_owned(), code_fg: code_fg.to_owned(), code_bg: code_bg.to_owned(), bullet: bullet.to_owned(), user_bg: user_bg.to_owned(), user_fg: user_fg.to_owned(), syntax_theme: syntax_theme.to_owned() }
}

/// The `gruvbox` theme.
pub open spec fn gruvbox_info() -> ThemeInfo {
    ThemeInfo {
        name: "gruvbox"@,
        fg: "#ebdbb2"@,
        h1: "#fe8019"@,
        headers: "#fabd2f"@,
        bold: "#fe8019"@,
        italic: "#b8bb26"@,
        code_fg: "#8ec07c"@,
        code_bg: "#3c3836"@,
        bullet: "#fabd2f"@,
        user_bg: "#3c3836"@,
        user_fg: "#ebdbb2"@,
        syntax_theme: "base16-ocean.dark"@,
    }
}

/// The built-in `gruvbox` theme.
pub fn gruvbox() -> (r: Theme)
    ensures
        theme_info(r) == gruvbox_info(),
{
    make_theme(
        "gruvbox",
        "#ebdbb2",
        "#fe8019",
        "#fabd2f",
        "#fe8019",
        "#b8bb26",
        "#8ec07c",
        "#3c3836",
        "#fabd2f",
        "#3c3836",
        "#ebdbb2",
        "base16-ocean.dark",
    )
}

/// The `tokyonight` theme.
pub open spec fn tokyonight_info() -> ThemeInfo {
    ThemeInfo {
        name: "tokyonight"@,
        fg: "#a9b1d6"@,
        h1: "#7aa2f7"@,
        headers: "#bb9af7"@,
        bold: "#7aa2f7"@,
        italic: "#9ece6a"@,
        code_fg: "#73daca"@,
        code_bg: "#1a1b2e"@,
        bullet: "#e0af68"@,
        user_bg: "#24283b"@,
        user_fg: "#c0caf5"@,
        syntax_theme: "base16-ocean.dark"@,
    }
}

/// The built-in `tokyonight` theme.
pub fn tokyonight() -> (r: Theme)
    ensures
        theme_info(r) == tokyonight_info(),
{
    make_theme(
        "tokyonight",
        "#a9b1d6",
        "#7aa2f7",
        "#bb9af7",
        "#7aa2f7",
        "#9ece6a",
        "#73daca",
        "#1a1b2e",
        "#e0af68",
        "#24283b",
        "#c0caf5",
        "base16-ocean.dark",
    )
}

/// The `catppuccin` theme.
pub open spec fn catppuccin_info() -> ThemeInfo {
    ThemeInfo {
        name: "catppuccin"@,
        fg: "#cad3f5"@,
        h1: "#8aadf4"@,
        headers: "#c6a0f6"@,
        bold: "#ee99a0"@,
        italic: "#a6da95"@,
        code_fg: "#8bd5ca"@,
        code_bg: "#1e2030"@,
        bullet: "#f5bde6"@,
        user_bg: "#363a4f"@,
        user_fg: "#cad3f5"@,
        syntax_theme: "base16-ocean.dark"@,
    }
}

/// The built-in `catppuccin` theme.
pub fn catppuccin() -> (r: Theme)
    ensures
        theme_info(r) == catppuccin_info(),
{
    make_theme(
        "catppuccin",
        "#cad3f5",
        "#8aadf4",
        "#c6a0f6",
        "#ee99a0",
        "#a6da95",
        "#8bd5ca",
        "#1e2030",
        "#f5bde6",
        "#363a4f",
        "#cad3f5",
        "base16-ocean.dark",
    )
}

/// The `rose-pine` theme.
pub open spec fn rose_pine_info() -> ThemeInfo {
    ThemeInfo {
        name: "rose-pine"@,
        fg: "#e0def4"@,
        h1: "#ebbcba"@,
        headers: "#c4a7e7"@,
        bold: "#eb6f92"@,
        italic: "#9ccfd8"@,
        code_fg: "#f6c177"@,
        code_bg: "#191724"@,
        bullet: "#31748f"@,
        user_bg: "#26233a"@,
        user_fg: "#e0def4"@,
        syntax_theme: "base16-ocean.dark"@,
    }
}

/// The built-in `rose-pine` theme.
pub fn rose_pine() -> (r: Theme)
    ensures
        theme_info(r) == rose_pine_info(),
{
    make_theme(
        "rose-pine",
        "#e0def4",
        "#ebbcba",
        "#c4a7e7",
        "#eb6f92",
        "#9ccfd8",
        "#f6c177",
        "#191724",
        "#31748f",
        "#26233a",
        "#e0def4",
        "base16-ocean.dark",
    )
}

/// The `kanagawa` theme.
pub open spec fn kanagawa_info() -> ThemeInfo {
    ThemeInfo {
        name: "kanagawa"@,
        fg: "#dcd7ba"@,
        h1: "#938aa9"@,
        headers: "#7e9cd8"@,
        bold: "#e82424"@,
        italic: "#98bb6c"@,
        code_fg: "#dca561"@,
        code_bg: "#1f1f28"@,
        bullet: "#7e9cd8"@,
        user_bg: "#2a2a37"@,
        user_fg: "#dcd7ba"@,
        syntax_theme: "base16-ocean.dark"@,
    }
}

/// The built-in `kanagawa` theme.
pub fn kanagawa() -> (r: Theme)
    ensures
        theme_info(r) == kanagawa_info(),
{
    make_theme(
        "kanagawa",
        "#dcd7ba",
        "#938aa9",
        "#7e9cd8",
        "#e82424",
        "#98bb6c",
        "#dca561",
        "#1f1f28",
        "#7e9cd8",
        "#2a2a37",
        "#dcd7ba",
        "base16-ocean.dark",
    )
}

/// The `everforest` theme.
pub open spec fn everforest_info() -> ThemeInfo {
    ThemeInfo {
        name: "everforest"@,
        fg: "#d3c6aa"@,
        h1: "#a7c080"@,
        headers: "#dbbc7f"@,
        bold: "#e67e80"@,
        italic: "#7fbbb3"@,
        code_fg: "#83c092"@,
        code_bg: "#2d353b"@,
        bullet: "#dbbc7f"@,
        user_bg: "#343f44"@,
        user_fg: "#d3c6aa"@,
        syntax_theme: "base16-ocean.dark"@,
    }
}

/// The built-in `everforest` theme.
pub fn everforest() -> (r: Theme)
    ensures
        theme_info(r) == everforest_info(),
{
    make_theme(
        "everforest",
        "#d3c6aa",
        "#a7c080",
        "#dbbc7f",
        "#e67e80",
        "#7fbbb3",
        "#83c092",
        "#2d353b",
        "#dbbc7f",
        "#343f44",
        "#d3c6aa",
        "base16-ocean.dark",
    )
}

/// The `nord` theme.
pub open spec fn nord_info() -> ThemeInfo {
    ThemeInfo {
        name: "nord"@,
        fg: "#d8dee9"@,
        h1: "#88c0d0"@,
        headers: "#81a1c1"@,
        bold: "#88c0d0"@,
        italic: "#a3be8c"@,
        code_fg: "#81a1c1"@,
        code_bg: "#3b4252"@,
        bullet: "#88c0d0"@,
        user_bg: "#3b4252"@,
        user_fg: "#eceff4"@,
        syntax_theme: "base16-ocean.dark"@,
    }
}

/// The built-in `nord` theme.
pub fn nord() -> (r: Theme)
    ensures
        theme_info(r) == nord_info(),
{
    make_theme(
        "nord",
        "#d8dee9",
        "#88c0d0",
        "#81a1c1",
        "#88c0d0",
        "#a3be8c",
        "#81a1c1",
        "#3b4252",
        "#88c0d0",
        "#3b4252",
        "#eceff4",
        "base16-ocean.dark",
    )
}

/// The `dracula` theme.
pub open spec fn dracula_info() -> ThemeInfo {
    ThemeInfo {
        name: "dracula"@,
        fg: "#f8f8f2"@,
        h1: "#ff79c6"@,
        headers: "#bd93f9"@,
        bold: "#ff79c6"@,
        italic: "#50fa7b"@,
        code_fg: "#50fa7b"@,
        code_bg: "#282a36"@,
        bullet: "#f1fa8c"@,
        user_bg: "#44475a"@,
        user_fg: "#f8f8f2"@,
        syntax_theme: "base16-eighties.dark"@,
    }
}

/// The built-in `dracula` theme.
pub fn dracula() -> (r: Theme)
    ensures
        theme_info(r) == dracula_info(),
{
    make_theme(
        "dracula",
        "#f8f8f2",
        "#ff79c6",
        "#bd93f9",
        "#ff79c6",
        "#50fa7b",
        "#50fa7b",
        "#282a36",
        "#f1fa8c",
        "#44475a",
        "#f8f8f2",
        "base16-eighties.dark",
    )
}

/// The built-in themes, in display order.
pub open spec fn builtin_infos() -> Seq<ThemeInfo> {
    seq![gruvbox_info(), tokyonight_info(), catppuccin_info(), rose_pine_info(), kanagawa_info(), everforest_info(), nord_info(), dracula_info()]
}

/// The values of themes.
pub open spec fn themes_info(v: Seq<Theme>) -> Seq<ThemeInfo> {
    v.map_values(|t: Theme| theme_info(t))
}

/// All built-in themes in display order.
pub fn builtin_themes() -> (r: Vec<Theme>)
    ensures
        themes_info(r@) == builtin_infos(),
{
    let r = vec![gruvbox(), tokyonight(), catppuccin(), rose_pine(), kanagawa(), everforest(), nord(), dracula()];
    assert(themes_info(r@) =~= builtin_infos());
    r
}

/// `b` without its leading `#` bytes, as `str::trim_start_matches('#')`
/// leaves the bytes of a text.
pub open spec fn strip_hash_bytes(b: Seq<u8>) -> Seq<u8>
    decreases b.len(),
{
    if b.len() > 0 && b[0] == 0x23u8 {
        strip_hash_bytes(b.drop_first())
    } else {
        b
    }
}

/// The value of a hexadecimal digit byte (`0-9`, `a-f`, `A-F`).
pub open spec fn hex_digit(b: u8) -> Option<u8> {
    if 0x30 <= b <= 0x39 {
        Some((b - 0x30) as u8)
    } else if 0x61 <= b <= 0x66 {
        Some((b - 0x61 + 10) as u8)
    } else if 0x41 <= b <= 0x46 {
        Some((b - 0x41 + 10) as u8)
    } else {
        None
    }
}

/// The byte value that the two hexadecimal digits `a` and `b` spell, if both
/// are hexadecimal digits.
pub open spec fn hex_pair(a: u8, b: u8) -> Option<u8> {
    match (hex_digit(a), hex_digit(b)) {
        (Some(x), Some(y)) => Some((16 * x + y) as u8),
        _ => None,
    }
}

/// The colour that `#rrggbb` (any number of leading `#`) names: when six bytes
/// remain and each pair of them is a hexadecimal number, those numbers;
/// otherwise white.
pub open spec fn hex_color(hex: Seq<u8>) -> (u8, u8, u8) {
    let h = strip_hash_bytes(hex);
    if h.len() == 6 {
        match (hex_pair(h[0], h[1]), hex_pair(h[2], h[3]), hex_pair(h[4], h[5])) {
            (Some(r), Some(g), Some(b)) => (r, g, b),
            _ => (0xffu8, 0xffu8, 0xffu8),
        }
    } else {
        (0xffu8, 0xffu8, 0xffu8)
    }
}

/// The number of leading `#` bytes of `b`.
fn hash_prefix_len(b: &[u8]) -> (k: usize)
    ensures
        k <= b@.len(),
        strip_hash_bytes(b@) == b@.skip(k as int),
{
    let mut k: usize = 0;
    assert(b@.skip(0) =~= b@);
    while k < b.len() && b[k] == 0x23u8
        invariant
            k <= b@.len(),
            strip_hash_bytes(b@) == strip_hash_bytes(b@.skip(k as int)),
        decreases b.len() - k,
    {
        assert(b@.skip(k as int).drop_first() =~= b@.skip(k + 1));
        k = k + 1;
    }
    k
}

fn hex_digit_exec(b: u8) -> (r: Option<u8>)
    ensures
        r == hex_digit(b),
{
    if 0x30 <= b && b <= 0x39 {
        Some(b - 0x30)
    } else if 0x61 <= b && b <= 0x66 {
        Some(b - 0x61 + 10)
    } else if 0x41 <= b && b <= 0x46 {
        Some(b - 0x41 + 10)
    } else {
        None
    }
}

fn hex_pair_exec(a: u8, b: u8) -> (r: Option<u8>)
    ensures
        r == hex_pair(a, b),
{
    match (hex_digit_exec(a), hex_digit_exec(b)) {
        (Some(x), Some(y)) => Some(16 * x + y),
        _ => None,
    }
}

/// Parse `#rrggbb` into `(r, g, b)`; white on any error.
pub fn parse_hex(hex: &str) -> (r: (u8, u8, u8))
    ensures
        r == hex_color(hex.spec_bytes()),
{
    let b = hex.as_bytes();
    let k = hash_prefix_len(b);
    if b.len() - k == 6 {
        let r = hex_pair_exec(b[k], b[k + 1]);
        let g = hex_pair_exec(b[k + 2], b[k + 3]);
        let bl = hex_pair_exec(b[k + 4], b[k + 5]);
        if let (Some(r), Some(g), Some(bl)) = (r, g, bl) {
            return (r, g, bl);
        }
    }
    (0xff, 0xff, 0xff)
}

/// Whether `s` is a colour in `#rrggbb` form: `#` and six hexadecimal digits.
pub open spec fn is_hex_color(s: Seq<u8>) -> bool {
    &&& s.len() == 7
    &&& s[0] == 0x23u8
    &&& forall|i: int| 1 <= i < 7 ==> hex_digit(#[trigger] s[i]) is Some
}

/// Whether `s` is a colour in `#rrggbb` form.
pub fn is_valid_hex(s: &str) -> (r: bool)
    ensures
        r == is_hex_color(s.spec_bytes()),
{
    let b = s.as_bytes();
    if b.len() != 7 || b[0] != 0x23 {
        return false;
    }
    let mut i: usize = 1;
    while i < 7
        invariant
            1 <= i <= 7,
            b@ == s.spec_bytes(),
            b@.len() == 7,
            b@[0] == 0x23u8,
            forall|j: int| 1 <= j < i ==> hex_digit(#[trigger] b@[j]) is Some,
        decreases 7 - i,
    {
        if hex_digit_exec(b[i]).is_none() {
            assert(!(hex_digit(b@[i as int]) is Some));
            return false;
        }
        i = i + 1;
    }
    true
}

/// A colour that the theme editor accepts (`#` and six hexadecimal digits) is
/// read as the values of its digit pairs, never as the white fallback.
pub proof fn law_valid_hex_is_read(s: Seq<u8>)
    requires
        is_hex_color(s),
    ensures
        hex_color(s) == (
            (16 * hex_digit(s[1])->0 + hex_digit(s[2])->0) as u8,
            (16 * hex_digit(s[3])->0 + hex_digit(s[4])->0) as u8,
            (16 * hex_digit(s[5])->0 + hex_digit(s[6])->0) as u8,
        ),
{
    let t = s.drop_first();
    assert(hex_digit(s[1]) is Some);
    assert(hex_digit(s[2]) is Some);
    assert(hex_digit(s[3]) is Some);
    assert(hex_digit(s[4]) is Some);
    assert(hex_digit(s[5]) is Some);
    assert(hex_digit(s[6]) is Some);
    assert(t[0] == s[1]);
    assert(strip_hash_bytes(t) == t);
    assert(strip_hash_bytes(s) == t);
    assert(t[0] == s[1] && t[1] == s[2] && t[2] == s[3] && t[3] == s[4] && t[4] == s[5] && t[5]
        == s[6]);
}

/// A copy of `t`.
pub fn copy_theme(t: &Theme) -> (r: Theme)
    ensures
        theme_info(r) == theme_info(*t),
{
    Theme {
        name: t.name.clone(),
        fg: t.fg.clone(),
        h1: t.h1.clone(),
        headers: t.headers.clone(),
        bold: t.bold.clone(),
        italic: t.italic.clone(),
        code_fg: t.code_fg.clone(),
        code_bg: t.code_bg.clone(),
        bullet: t.bullet.clone(),
        user_bg: t.user_bg.clone(),
        user_fg: t.user_fg.clone(),
        syntax_theme: t.syntax_theme.clone(),
    }
}

/// Built-in themes followed by any user-created themes.
pub fn all_themes(custom: &[Theme]) -> (r: Vec<Theme>)
    ensures
        themes_info(r@) == builtin_infos() + themes_info(custom@),
{
    let mut r = builtin_themes();
    let ghost b = themes_info(r@);
    let mut i: usize = 0;
    while i < custom.len()
        invariant
            i <= custom@.len(),
            b == builtin_infos(),
            themes_info(r@) == b + themes_info(custom@.take(i as int)),
        decreases custom.len() - i,
    {
        let t = copy_theme(&custom[i]);
        let ghost before = r@;
        r.push(t);
        assert(themes_info(r@) =~= themes_info(before).push(theme_info(t)));
        assert(custom@.take(i + 1) =~= custom@.take(i as int).push(custom@[i as int]));
        assert(themes_info(custom@.take(i + 1)) =~= themes_info(custom@.take(i as int)).push(
            theme_info(custom@[i as int]),
        ));
        i = i + 1;
    }
    assert(custom@.take(custom@.len() as int) =~= custom@);
    r
}

/// The first theme of `ts` named `name`.
pub open spec fn find_theme(ts: Seq<ThemeInfo>, name: Seq<char>) -> Option<ThemeInfo>
    decreases ts.len(),
{
    if ts.len() == 0 {
        None
    } else if ts[0].name == name {
        Some(ts[0])
    } else {
        find_theme(ts.drop_first(), name)
    }
}

/// The theme that the name `name` selects among the built-in themes and the
/// user's `custom` ones: the first with that name, else `gruvbox`.
pub open spec fn chosen_theme(name: Seq<char>, custom: Seq<ThemeInfo>) -> ThemeInfo {
    match find_theme(builtin_infos() + custom, name) {
        Some(t) => t,
        None => gruvbox_info(),
    }
}

/// The first theme among the built-in and the `custom` themes named `name`.
pub fn find_named_theme(name: &str, custom: &[Theme]) -> (r: Option<Theme>)
    ensures
        r is None <==> find_theme(builtin_infos() + themes_info(custom@), name@) is None,
        r matches Some(t) ==> find_theme(builtin_infos() + themes_info(custom@), name@) == Some(
            theme_info(t),
        ),
{
    let all = all_themes(custom);
    let key = name.to_owned();
    let ghost ti = themes_info(all@);
    let mut i: usize = 0;
    assert(ti.skip(0) =~= ti);
    while i < all.len()
        invariant
            i <= all@.len(),
            ti == themes_info(all@),
            ti == builtin_infos() + themes_info(custom@),
            key@ == name@,
            find_theme(ti, name@) == find_theme(ti.skip(i as int), name@),
        decreases all.len() - i,
    {
        assert(ti.skip(i as int)[0] == theme_info(all@[i as int]));
        if all[i].name == key {
            return Some(copy_theme(&all[i]));
        }
        assert(ti.skip(i as int).drop_first() =~= ti.skip(i + 1));
        i = i + 1;
    }
    None
}

/// The theme named `name` among the built-in and the `custom` themes
/// (the first such), or `gruvbox` when there is none.
pub fn get_theme(name: &str, custom: &[Theme]) -> (r: Theme)
    ensures
        theme_info(r) == chosen_theme(name@, themes_info(custom@)),
{
    match find_named_theme(name, custom) {
        Some(t) => t,
        None => gruvbox(),
    }
}

/// Whether `name` is the name of a built-in theme.
pub open spec fn is_builtin_name(name: Seq<char>) -> bool {
    exists|i: int| 0 <= i < 8 && (#[trigger] builtin_infos()[i]).name == name
}

/// The user's themes after saving `t`: any theme of the same name is
/// replaced, and `t` comes last.
pub open spec fn upserted(custom: Seq<ThemeInfo>, t: ThemeInfo) -> Seq<ThemeInfo> {
    custom.filter(|x: ThemeInfo| x.name != t.name).push(t)
}

/// Save `theme` among the user's themes, replacing one of the same name.
pub fn upsert_custom_theme(custom: &mut Vec<Theme>, theme: Theme)
    ensures
        themes_info(final(custom)@) == upserted(themes_info(old(custom)@), theme_info(theme)),
{
    let ghost old_info = themes_info(custom@);
    let ghost pred = |x: ThemeInfo| x.name != theme.name@;
    let mut kept: Vec<Theme> = Vec::new();
    let mut i: usize = 0;
    while i < custom.len()
        invariant
            i <= custom@.len(),
            old_info == themes_info(custom@),
            pred == (|x: ThemeInfo| x.name != theme.name@),
            themes_info(kept@) == old_info.take(i as int).filter(pred),
        decreases custom.len() - i,
    {
        proof {
            reveal(Seq::filter);
            assert(old_info.take(i + 1).drop_last() =~= old_info.take(i as int));
            assert(old_info.take(i + 1).last() == theme_info(custom@[i as int]));
        }
        if custom[i].name != theme.name {
            let t = copy_theme(&custom[i]);
            let ghost before = kept@;
            kept.push(t);
            assert(themes_info(kept@) =~= themes_info(before).push(theme_info(t)));
        }
        i = i + 1;
    }
    assert(old_info.take(custom@.len() as int) =~= old_info);
    let ghost before = kept@;
    kept.push(theme);
    assert(themes_info(kept@) =~= themes_info(before).push(theme_info(theme)));
    *custom = kept;
}

proof fn lemma_find_theme_at(ts: Seq<ThemeInfo>, name: Seq<char>, i: int)
    requires
        0 <= i < ts.len(),
        ts[i].name == name,
        forall|j: int| 0 <= j < i ==> (#[trigger] ts[j]).name != name,
    ensures
        find_theme(ts, name) == Some(ts[i]),
    decreases i,
{
    if i > 0 {
        let t = ts.drop_first();
        assert forall|j: int| 0 <= j < i - 1 implies (#[trigger] t[j]).name != name by {
            assert(t[j] == ts[j + 1]);
        }
        lemma_find_theme_at(t, name, i - 1);
    }
}

proof fn lemma_find_theme_skip(a: Seq<ThemeInfo>, b: Seq<ThemeInfo>, name: Seq<char>)
    requires
        forall|j: int| 0 <= j < a.len() ==> (#[trigger] a[j]).name != name,
    ensures
        find_theme(a + b, name) == find_theme(b, name),
    decreases a.len(),
{
    if a.len() > 0 {
        assert((a + b)[0] == a[0]);
        assert((a + b).drop_first() =~= a.drop_first() + b);
        assert forall|j: int| 0 <= j < a.len() - 1 implies (#[trigger] a.drop_first()[j]).name
            != name by {
            assert(a.drop_first()[j] == a[j + 1]);
        }
        lemma_find_theme_skip(a.drop_first(), b, name);
    } else {
        assert(a + b =~= b);
    }
}

proof fn lemma_builtin_names_distinct()
    ensures
        forall|j: int, k: int|
            0 <= j < 8 && 0 <= k < 8 && j != k ==> (#[trigger] builtin_infos()[j]).name
                != (#[trigger] builtin_infos()[k]).name,
{
    reveal_strlit("gruvbox");
    reveal_strlit("tokyonight");
    reveal_strlit("catppuccin");
    reveal_strlit("rose-pine");
    reveal_strlit("kanagawa");
    reveal_strlit("everforest");
    reveal_strlit("nord");
    reveal_strlit("dracula");
    let b = builtin_infos();
    assert(b[0].name[0] == 'g' && b[1].name[0] == 't' && b[2].name[0] == 'c' && b[3].name[0]
        == 'r');
    assert(b[4].name[0] == 'k' && b[5].name[0] == 'e' && b[6].name[0] == 'n' && b[7].name[0]
        == 'd');
    assert forall|j: int, k: int|
        0 <= j < 8 && 0 <= k < 8 && j != k implies (#[trigger] b[j]).name != (
        #[trigger] b[k]).name by {
        if b[j].name == b[k].name {
            assert(b[j].name[0] == b[k].name[0]);
        }
    }
}

/// A built-in theme's name always selects that built-in theme, whatever
/// themes the user has made.
pub proof fn law_builtin_theme_wins(custom: Seq<ThemeInfo>, i: int)
    requires
        0 <= i < 8,
    ensures
        chosen_theme(builtin_infos()[i].name, custom) == builtin_infos()[i],
{
    lemma_builtin_names_distinct();
    let ts = builtin_infos() + custom;
    assert forall|j: int| 0 <= j < i implies (#[trigger] ts[j]).name != builtin_infos()[i].name by {
        assert(ts[j] == builtin_infos()[j]);
    }
    assert(ts[i] == builtin_infos()[i]);
    lemma_find_theme_at(ts, builtin_infos()[i].name, i);
}

/// A theme the user saves under a name that no built-in theme has is the one
/// that name selects afterwards, and it is the only user theme of that name.
pub proof fn law_saved_theme_selected(custom: Seq<ThemeInfo>, t: ThemeInfo)
    requires
        !is_builtin_name(t.name),
    ensures
        chosen_theme(t.name, upserted(custom, t)) == t,
        forall|j: int|
            0 <= j < upserted(custom, t).len() - 1 ==> (#[trigger] upserted(custom, t)[j]).name
                != t.name,
{
    let pred = |x: ThemeInfo| x.name != t.name;
    let kept = custom.filter(pred);
    assert forall|j: int| 0 <= j < kept.len() implies (#[trigger] kept[j]).name != t.name by {
        custom.lemma_filter_pred(pred, j);
    }
    let a = builtin_infos() + kept;
    assert forall|j: int| 0 <= j < a.len() implies (#[trigger] a[j]).name != t.name by {
        if j < 8 {
            assert(a[j] == builtin_infos()[j]);
        } else {
            assert(a[j] == kept[j - 8]);
        }
    }
    assert(builtin_infos() + upserted(custom, t) =~= a + seq![t]);
    lemma_find_theme_skip(a, seq![t], t.name);
    assert(seq![t][0] == t);
    assert forall|j: int| 0 <= j < upserted(custom, t).len() - 1 implies (#[trigger] upserted(
        custom,
        t,
    )[j]).name != t.name by {
        assert(upserted(custom, t)[j] == kept[j]);
    }
}

/// Whether `name` names a built-in theme.
pub fn is_builtin_theme(name: &str) -> (r: bool)
    ensures
        r == is_builtin_name(name@),
{
    let b = builtin_themes();
    let key = name.to_owned();
    assert(themes_info(b@).len() == b@.len());
    let mut i: usize = 0;
    while i < b.len()
        invariant
            i <= b@.len(),
            themes_info(b@) == builtin_infos(),
            b@.len() == 8,
            key@ == name@,
            forall|j: int| 0 <= j < i ==> (#[trigger] builtin_infos()[j]).name != name@,
        decreases b.len() - i,
    {
        assert(builtin_infos()[i as int] == theme_info(b@[i as int]));
        if b[i].name == key {
            assert(builtin_infos()[i as int].name == name@);
            return true;
        }
        i = i + 1;
    }
    false
}

/// Why a name cannot be given to a new theme.
pub enum ThemeNameError {
    /// The name is empty once trimmed.
    Empty,
    /// The name is that of a built-in theme, which cannot be overridden.
    BuiltIn,
}

/// Check the name of a new theme; on success, the trimmed name it is saved under.
pub fn validate_theme_name(name: &str) -> (r: Result<String, ThemeNameError>)
    ensures
        r matches Ok(n) ==> n@ == trim(name@),
        r is Ok <==> trim(name@).len() > 0 && !is_builtin_name(trim(name@)),
        r matches Err(ThemeNameError::Empty) <==> trim(name@).len() == 0,
        r matches Err(ThemeNameError::BuiltIn) <==> trim(name@).len() > 0 && is_builtin_name(
            trim(name@),
        ),
{
    let v = chars_of(name);
    let t = trim_chars(&v);
    if t.len() == 0 {
        return Err(ThemeNameError::Empty);
    }
    let n = string_of(&t);
    if is_builtin_theme(n.as_str()) {
        Err(ThemeNameError::BuiltIn)
    } else {
        Ok(n)
    }
}

/// The index of the first theme of `themes` named `name`, or 0 when none is.
pub fn theme_position(themes: &[Theme], name: &str) -> (r: usize)
    ensures
        forall|j: int| 0 <= j < r ==> (#[trigger] themes@[j]).name@ != name@,
        (r < themes@.len() && themes@[r as int].name@ == name@) || (r == 0 && forall|j: int|
            0 <= j < themes@.len() ==> (#[trigger] themes@[j]).name@ != name@),
{
    let key = name.to_owned();
    let mut i: usize = 0;
    while i < themes.len()
        invariant
            i <= themes@.len(),
            key@ == name@,
            forall|j: int| 0 <= j < i ==> (#[trigger] themes@[j]).name@ != name@,
        decreases themes.len() - i,
    {
        if themes[i].name == key {
            return i;
        }
        i = i + 1;
    }
    0
}

#[verifier::external_type_specification]
#[verifier::external_body]
pub struct ExColor(Color);

/// The terminal colour `Color::Rgb { r, g, b }`.
pub uninterp spec fn rgb_color(r: u8, g: u8, b: u8) -> Color;

/// crossterm's `Color::Rgb` variant built from its three components.
#[verifier::external_body]
fn rgb(r: u8, g: u8, b: u8) -> (c: Color)
    ensures
        c == rgb_color(r, g, b),
{
    Color::Rgb { r, g, b }
}

/// The terminal colour that a `#rrggbb` text names (white when it names none).
pub open spec fn hex_terminal_color(hex: Seq<u8>) -> Color {
    let (r, g, b) = hex_color(hex);
    rgb_color(r, g, b)
}

fn color_of(hex: &str) -> (c: Color)
    ensures
        c == hex_terminal_color(hex.spec_bytes()),
{
    let (r, g, b) = parse_hex(hex);
    rgb(r, g, b)
}

impl Theme {
    /// The colour of normal text.
    pub fn fg_color(&self) -> (c: Color)
        ensures
            c == hex_terminal_color(encode_utf8(self.fg@)),
    {
        color_of(self.fg.as_str())
    }

    /// The background of the user's chat bubble.
    pub fn user_bg_color(&self) -> (c: Color)
        ensures
            c == hex_terminal_color(encode_utf8(self.user_bg@)),
    {
        color_of(self.user_bg.as_str())
    }

    /// The text colour of the user's chat bubble.
    pub fn user_fg_color(&self) -> (c: Color)
        ensures
            c == hex_terminal_color(encode_utf8(self.user_fg@)),
    {
        color_of(self.user_fg.as_str())
    }

    /// The colour of first-level headings.
    pub fn h1_color(&self) -> (c: Color)
        ensures
            c == hex_terminal_color(encode_utf8(self.h1@)),
    {
        color_of(self.h1.as_str())
    }
}

} // verus!
