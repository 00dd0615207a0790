//! Line editing for the chat prompt: cursor movement over UTF-8 text,
//! the slash-command dropdown and the key-by-key state machine.
use vstd::prelude::*;
use vstd::utf8::is_char_boundary;
use vstd::string::StringSliceAdditionalSpecFns;
use crate::text::{chars_eq, chars_of, concat_chars, starts_with, starts_with_exec, string_of, trim, trim_chars};

verus! {

/// Whether `r` is the character boundary of `b` just before `pos`: a
/// boundary below `pos` with none between them.
pub open spec fn is_prev_boundary(b: Seq<u8>, pos: int, r: int) -> bool {
    &&& r < pos
    &&& is_char_boundary(b, r)
    &&& forall|k: int| r < k < pos ==> !is_char_boundary(b, k)
}

/// Whether `r` is the character boundary of `b` just after `pos`: a
/// boundary above `pos`, within `b`, with none between them.
pub open spec fn is_next_boundary(b: Seq<u8>, pos: int, r: int) -> bool {
    &&& pos < r <= b.len()
    &&& is_char_boundary(b, r)
    &&& forall|k: int| pos < k < r ==> !is_char_boundary(b, k)
}

/// The byte offset of the character boundary just before `pos`
/// (0 when `pos` is 0).
pub fn prev_char(pos: usize, s: &str) -> (r: usize)
    ensures
        pos == 0 ==> r == 0,
        pos > 0 ==> is_prev_boundary(s.spec_bytes(), pos as int, r as int),
{
    proof {
        vstd::utf8::encode_utf8_valid_utf8(s@);
    }
    if pos == 0 {
        return 0;
    }
    let mut i = pos - 1;
    while i > 0 && !s.is_char_boundary(i)
        invariant
            i < pos,
            forall|k: int| i < k < pos ==> !is_char_boundary(s.spec_bytes(), k),
        decreases i,
    {
        i -= 1;
    }
    i
}

/// The byte offset of the character boundary just after `pos`
/// (the length of `s` when `pos` is at or past the end).
pub fn next_char(pos: usize, s: &str) -> (r: usize)
    requires
        s.spec_bytes().len() <= usize::MAX,
    ensures
        pos >= s.spec_bytes().len() ==> r == s.spec_bytes().len(),
        pos < s.spec_bytes().len() ==> is_next_boundary(s.spec_bytes(), pos as int, r as int),
{
    proof {
        vstd::utf8::encode_utf8_valid_utf8(s@);
        vstd::utf8::is_char_boundary_start_end_of_seq(s.spec_bytes());
    }
    if pos >= s.len() {
        return s.len();
    }
    let mut i = pos + 1;
    while i < s.len() && !s.is_char_boundary(i)
        invariant
            pos < i <= s.spec_bytes().len(),
            forall|k: int| pos < k < i ==> !is_char_boundary(s.spec_bytes(), k),
        decreases s.spec_bytes().len() - i,
    {
        i += 1;
    }
    i
}


/// Moving one character right and then one character left comes back to
/// the same place: from a boundary `pos` before the end, the boundary just
/// after it is `n`, and the boundary just before `n` is `pos` again.
pub proof fn law_prev_undoes_next(b: Seq<u8>, pos: int, n: int, r: int)
    requires
        is_char_boundary(b, pos),
        is_next_boundary(b, pos, n),
        is_prev_boundary(b, n, r),
    ensures
        r == pos,
{
    if r < pos {
        assert(!is_char_boundary(b, pos));
    } else if pos < r {
        assert(!is_char_boundary(b, r));
    }
}

/// Moving one character left and then one character right comes back to
/// the same place: from a boundary `q` after the start, the boundary just
/// before it is `p`, and the boundary just after `p` is `q` again.
pub proof fn law_next_undoes_prev(b: Seq<u8>, q: int, p: int, m: int)
    requires
        is_char_boundary(b, q),
        q <= b.len(),
        is_prev_boundary(b, q, p),
        is_next_boundary(b, p, m),
    ensures
        m == q,
{
    if m < q {
        assert(!is_char_boundary(b, m));
    } else if q < m {
        assert(!is_char_boundary(b, q));
    }
}

/// Which dropdown the chat prompt shows for a given buffer.
pub enum MenuMode {
    /// `/theme <name>`: the theme names.
    Theme,
    /// `/clear <target>`: what can be cleared.
    Clear,
    /// A slash command.
    Command,
    /// No dropdown.
    Off,
}

/// The dropdown shown for the buffer `buf`.
pub open spec fn menu_mode(buf: Seq<char>) -> MenuMode {
    if starts_with(buf, "/theme "@) {
        MenuMode::Theme
    } else if starts_with(buf, "/clear "@) {
        MenuMode::Clear
    } else if starts_with(buf, "/"@) {
        MenuMode::Command
    } else {
        MenuMode::Off
    }
}

/// The slash commands with their descriptions, in menu order.
pub open spec fn command_entries() -> Seq<(Seq<char>, Seq<char>)> {
    seq![
        ("/bug"@, "report an issue with logs"@),
        ("/clear"@, "clear data (conversations, profile, models, config)"@),
        ("/exit"@, "exit the application"@),
        ("/help"@, "show this help"@),
        ("/memory"@, "show what Aide currently knows about you"@),
        ("/models"@, "list available models"@),
        ("/system"@, "show system information"@),
        ("/theme"@, "list or switch color themes"@),
    ]
}

/// The targets of `/clear` with their descriptions, in menu order.
pub open spec fn clear_entries() -> Seq<(Seq<char>, Seq<char>)> {
    seq![
        ("all"@, "factory reset (EVERYTHING)"@),
        ("chat"@, "clear conversation history"@),
        ("profile"@, "clear memory/profile"@),
        ("models"@, "delete all downloaded models"@),
        ("config"@, "reset settings to default"@),
    ]
}

/// The entries of the dropdown for `buf`, given the names of all themes.
pub open spec fn menu_items(buf: Seq<char>, themes: Seq<Seq<char>>) -> Seq<(Seq<char>, Seq<char>)> {
    match menu_mode(buf) {
        MenuMode::Theme => themes.map_values(|n: Seq<char>| (n, "theme"@)),
        MenuMode::Clear => clear_entries(),
        MenuMode::Command => command_entries(),
        MenuMode::Off => Seq::empty(),
    }
}

/// The text that the entries of the dropdown must start with.
pub open spec fn menu_filter(buf: Seq<char>) -> Seq<char> {
    match menu_mode(buf) {
        MenuMode::Theme => buf.skip(7),
        MenuMode::Clear => buf.skip(7),
        _ => buf,
    }
}

/// The indices `< n` of the entries whose name starts with `f`, in order.
pub open spec fn prefix_matches(items: Seq<(Seq<char>, Seq<char>)>, f: Seq<char>, n: int) -> Seq<int>
    decreases n,
{
    if n <= 0 {
        Seq::empty()
    } else if starts_with(items[n - 1].0, f) {
        prefix_matches(items, f, n - 1).push(n - 1)
    } else {
        prefix_matches(items, f, n - 1)
    }
}

/// The indices of the dropdown entries that are shown for `buf`.
pub open spec fn menu_filtered(buf: Seq<char>, themes: Seq<Seq<char>>) -> Seq<int> {
    let items = menu_items(buf, themes);
    prefix_matches(items, menu_filter(buf), items.len() as int)
}

/// A highlighted row kept within the `n` rows shown (none when nothing is shown).
pub open spec fn clamp_sel(sel: Option<nat>, n: nat) -> Option<nat> {
    if n == 0 {
        None
    } else {
        match sel {
            None => Some(0),
            Some(k) => Some(if k < n { k } else { (n - 1) as nat }),
        }
    }
}

/// The state of the chat prompt: the text typed so far, the cursor
/// (a character index) and the highlighted row of the dropdown.
pub struct EditorModel {
    pub buf: Seq<char>,
    pub cursor: nat,
    pub sel: Option<nat>,
}

/// A key press that the chat prompt reacts to.
#[derive(Clone, Copy)]
pub enum EditKey {
    Enter,
    Tab,
    Esc,
    /// Ctrl-C.
    Interrupt,
    Up,
    Down,
    Backspace,
    Delete,
    Left,
    Right,
    Home,
    End,
    Char(char),
    /// Any other key: nothing happens.
    Other,
}

/// What a key press leads to.
pub enum EditOutcome {
    /// Keep editing.
    Continue,
    /// The line is entered.
    Submit(String),
    /// The user interrupted (Ctrl-C).
    Cancel,
}

/// What a key press leads to, over mathematical values.
pub enum OutcomeModel {
    Continue,
    Submit(Seq<char>),
    Cancel,
}

/// The empty prompt.
pub open spec fn empty_model() -> EditorModel {
    EditorModel { buf: Seq::empty(), cursor: 0, sel: None }
}

/// The buffer after a dropdown entry is chosen with Enter.
pub open spec fn chosen_line(theme_mode: bool, selected: Seq<char>) -> Seq<char> {
    if theme_mode {
        "/theme "@ + selected
    } else {
        selected
    }
}

/// The buffer after a dropdown entry is completed with Tab.
pub open spec fn completed_line(theme_mode: bool, selected: Seq<char>) -> Seq<char> {
    if theme_mode {
        "/theme "@ + selected
    } else if selected == "/theme"@ {
        "/theme "@
    } else {
        selected
    }
}

/// One key press: the next state of the prompt and what it leads to.
pub open spec fn step_model(st: EditorModel, key: EditKey, themes: Seq<Seq<char>>) -> (
    EditorModel,
    OutcomeModel,
) {
    let buf = st.buf;
    let items = menu_items(buf, themes);
    let f = menu_filtered(buf, themes);
    let n = f.len();
    let sel = clamp_sel(st.sel, n);
    let theme_mode = menu_mode(buf) is Theme;
    let show = !(menu_mode(buf) is Off);
    let here = EditorModel { buf, cursor: st.cursor, sel };
    match key {
        EditKey::Enter => {
            if sel is Some && items[f[sel->0 as int]].0 == "/theme"@ && !theme_mode {
                (EditorModel { buf: "/theme "@, cursor: 7, sel: Some(0) }, OutcomeModel::Continue)
            } else {
                let line = match sel {
                    Some(k) => chosen_line(theme_mode, items[f[k as int]].0),
                    None => buf,
                };
                if trim(line) == "/"@ {
                    (empty_model(), OutcomeModel::Continue)
                } else {
                    (empty_model(), OutcomeModel::Submit(line))
                }
            }
        },
        EditKey::Tab => match sel {
            Some(k) => {
                let line = completed_line(theme_mode, items[f[k as int]].0);
                (EditorModel { buf: line, cursor: line.len(), sel: Some(0) }, OutcomeModel::Continue)
            },
            None => (here, OutcomeModel::Continue),
        },
        EditKey::Esc => {
            if show || sel is Some {
                (empty_model(), OutcomeModel::Continue)
            } else {
                (empty_model(), OutcomeModel::Submit(Seq::empty()))
            }
        },
        EditKey::Interrupt => (empty_model(), OutcomeModel::Cancel),
        EditKey::Up => match sel {
            Some(k) => (
                EditorModel { sel: Some(if k == 0 { (n - 1) as nat } else { (k - 1) as nat }), ..here },
                OutcomeModel::Continue,
            ),
            None => (here, OutcomeModel::Continue),
        },
        EditKey::Down => match sel {
            Some(k) => (
                EditorModel { sel: Some(if k + 1 >= n { 0 } else { k + 1 }), ..here },
                OutcomeModel::Continue,
            ),
            None => (here, OutcomeModel::Continue),
        },
        EditKey::Backspace => {
            if st.cursor > 0 {
                (
                    EditorModel {
                        buf: buf.remove(st.cursor - 1),
                        cursor: (st.cursor - 1) as nat,
                        sel: None,
                    },
                    OutcomeModel::Continue,
                )
            } else {
                (here, OutcomeModel::Continue)
            }
        },
        EditKey::Delete => {
            if st.cursor < buf.len() {
                (
                    EditorModel { buf: buf.remove(st.cursor as int), cursor: st.cursor, sel: None },
                    OutcomeModel::Continue,
                )
            } else {
                (here, OutcomeModel::Continue)
            }
        },
        EditKey::Left => (
            EditorModel { cursor: if st.cursor > 0 { (st.cursor - 1) as nat } else { 0 }, ..here },
            OutcomeModel::Continue,
        ),
        EditKey::Right => (
            EditorModel {
                cursor: if st.cursor < buf.len() { st.cursor + 1 } else { buf.len() },
                ..here
            },
            OutcomeModel::Continue,
        ),
        EditKey::Home => (EditorModel { cursor: 0, ..here }, OutcomeModel::Continue),
        EditKey::End => (EditorModel { cursor: buf.len(), ..here }, OutcomeModel::Continue),
        EditKey::Char(c) => (
            EditorModel { buf: buf.insert(st.cursor as int, c), cursor: st.cursor + 1, sel: None },
            OutcomeModel::Continue,
        ),
        EditKey::Other => (here, OutcomeModel::Continue),
    }
}


/// The characters of each string.
pub open spec fn strings_view(v: Seq<String>) -> Seq<Seq<char>> {
    v.map_values(|s: String| s@)
}

/// The characters of both strings of each pair.
pub open spec fn pairs_view(v: Seq<(Vec<char>, Vec<char>)>) -> Seq<(Seq<char>, Seq<char>)> {
    v.map_values(|p: (Vec<char>, Vec<char>)| (p.0@, p.1@))
}

pub(crate) fn entry(name: &str, desc: &str) -> (r: (Vec<char>, Vec<char>))
    ensures
        r.0@ == name@,
        r.1@ == desc@,
{
    (chars_of(name), chars_of(desc))
}

fn command_entries_exec() -> (r: Vec<(Vec<char>, Vec<char>)>)
    ensures
        pairs_view(r@) == command_entries(),
{
    let r = vec![
        entry("/bug", "report an issue with logs"),
        entry("/clear", "clear data (conversations, profile, models, config)"),
        entry("/exit", "exit the application"),
        entry("/help", "show this help"),
        entry("/memory", "show what Aide currently knows about you"),
        entry("/models", "list available models"),
        entry("/system", "show system information"),
        entry("/theme", "list or switch color themes"),
    ];
    assert(pairs_view(r@) =~= command_entries());
    r
}

fn clear_entries_exec() -> (r: Vec<(Vec<char>, Vec<char>)>)
    ensures
        pairs_view(r@) == clear_entries(),
{
    let r = vec![
        entry("all", "factory reset (EVERYTHING)"),
        entry("chat", "clear conversation history"),
        entry("profile", "clear memory/profile"),
        entry("models", "delete all downloaded models"),
        entry("config", "reset settings to default"),
    ];
    assert(pairs_view(r@) =~= clear_entries());
    r
}

fn menu_mode_exec(buf: &[char]) -> (r: MenuMode)
    ensures
        r == menu_mode(buf@),
{
    if starts_with_exec(buf, &chars_of("/theme ")) {
        MenuMode::Theme
    } else if starts_with_exec(buf, &chars_of("/clear ")) {
        MenuMode::Clear
    } else if starts_with_exec(buf, &chars_of("/")) {
        MenuMode::Command
    } else {
        MenuMode::Off
    }
}

fn menu_items_exec(buf: &[char], themes: &Vec<String>) -> (r: Vec<(Vec<char>, Vec<char>)>)
    ensures
        pairs_view(r@) == menu_items(buf@, strings_view(themes@)),
{
    match menu_mode_exec(buf) {
        MenuMode::Theme => {
            let mut r: Vec<(Vec<char>, Vec<char>)> = Vec::new();
            let mut i: usize = 0;
            while i < themes.len()
                invariant
                    i <= themes@.len(),
                    r@.len() == i,
                    menu_mode(buf@) is Theme,
                    pairs_view(r@) == strings_view(themes@).take(i as int).map_values(
                        |n: Seq<char>| (n, "theme"@),
                    ),
                decreases themes.len() - i,
            {
                let ghost old_r = r@;
                let ghost old_target = strings_view(themes@).take(i as int).map_values(
                    |n: Seq<char>| (n, "theme"@),
                );
                let e = entry(themes[i].as_str(), "theme");
                r.push(e);
                i = i + 1;
                let ghost target = strings_view(themes@).take(i as int).map_values(
                    |n: Seq<char>| (n, "theme"@),
                );
                assert forall|k: int| 0 <= k < i implies pairs_view(r@)[k] == target[k] by {
                    if k < i - 1 {
                        assert(r@[k] == old_r[k]);
                        assert(pairs_view(old_r)[k] == old_target[k]);
                    } else {
                        assert(r@[k] == e);
                        assert(strings_view(themes@)[k] == themes@[k]@);
                    }
                }
                assert(pairs_view(r@) =~= target);
            }
            assert(strings_view(themes@).take(i as int) =~= strings_view(themes@));
            r
        },
        MenuMode::Clear => clear_entries_exec(),
        MenuMode::Command => command_entries_exec(),
        MenuMode::Off => {
            let r: Vec<(Vec<char>, Vec<char>)> = Vec::new();
            assert(pairs_view(r@) =~= Seq::empty());
            r
        },
    }
}

fn menu_filter_exec(buf: &[char]) -> (r: Vec<char>)
    ensures
        r@ == menu_filter(buf@),
{
    match menu_mode_exec(buf) {
        MenuMode::Theme | MenuMode::Clear => {
            proof {
                reveal_strlit("/theme ");
                reveal_strlit("/clear ");
            }
            assert(buf@.len() >= 7);
            crate::text::slice_chars(buf, 7, buf.len())
        },
        _ => crate::text::slice_chars(buf, 0, buf.len()),
    }
}

pub(crate) fn prefix_matches_exec(items: &Vec<(Vec<char>, Vec<char>)>, f: &[char]) -> (r: Vec<usize>)
    ensures
        r@.len() == prefix_matches(pairs_view(items@), f@, items@.len() as int).len(),
        forall|k: int|
            0 <= k < r@.len() ==> r@[k] as int == #[trigger] prefix_matches(
                pairs_view(items@),
                f@,
                items@.len() as int,
            )[k],
{
    let ghost iv = pairs_view(items@);
    let mut r: Vec<usize> = Vec::new();
    let mut i: usize = 0;
    while i < items.len()
        invariant
            i <= items@.len(),
            iv == pairs_view(items@),
            r@.len() == prefix_matches(iv, f@, i as int).len(),
            forall|k: int|
                0 <= k < r@.len() ==> r@[k] as int == #[trigger] prefix_matches(
                    iv,
                    f@,
                    i as int,
                )[k],
        decreases items.len() - i,
    {
        assert(iv[i as int].0 == items@[i as int].0@);
        if starts_with_exec(&items[i].0, f) {
            r.push(i);
        }
        i = i + 1;
    }
    r
}


pub(crate) proof fn lemma_prefix_matches_bounds(items: Seq<(Seq<char>, Seq<char>)>, f: Seq<char>, n: int)
    requires
        0 <= n,
    ensures
        prefix_matches(items, f, n).len() <= n,
        forall|k: int|
            0 <= k < prefix_matches(items, f, n).len() ==> 0 <= #[trigger] prefix_matches(
                items,
                f,
                n,
            )[k] < n,
    decreases n,
{
    if n > 0 {
        lemma_prefix_matches_bounds(items, f, n - 1);
    }
}

/// The value of a key press.
pub open spec fn outcome_model(r: EditOutcome) -> OutcomeModel {
    match r {
        EditOutcome::Continue => OutcomeModel::Continue,
        EditOutcome::Submit(s) => OutcomeModel::Submit(s@),
        EditOutcome::Cancel => OutcomeModel::Cancel,
    }
}

/// The chat prompt being edited.
pub struct LineEditor {
    buf: Vec<char>,
    cursor: usize,
    sel: Option<usize>,
}

/// The dropdown as it is drawn: its entries, the shown rows (indices into
/// the entries), the highlighted row, and the theme to preview (an index
/// into the theme names) while a theme is highlighted.
pub struct MenuView {
    pub items: Vec<(String, String)>,
    pub filtered: Vec<usize>,
    pub selected: Option<usize>,
    pub preview_theme: Option<usize>,
}

impl View for LineEditor {
    type V = EditorModel;

    closed spec fn view(&self) -> EditorModel {
        EditorModel {
            buf: self.buf@,
            cursor: self.cursor as nat,
            sel: match self.sel {
                Some(k) => Some(k as nat),
                None => None,
            },
        }
    }
}

impl LineEditor {
    #[verifier::type_invariant]
    closed spec fn inv(&self) -> bool {
        self.cursor <= self.buf@.len()
    }

    /// An empty prompt.
    pub fn new() -> (r: LineEditor)
        ensures
            r@ == empty_model(),
    {
        LineEditor { buf: Vec::new(), cursor: 0, sel: None }
    }

    /// The text typed so far.
    pub fn buffer(&self) -> (r: String)
        ensures
            r@ == self@.buf,
    {
        string_of(&self.buf)
    }

    /// The cursor, as a number of characters from the start.
    pub fn cursor(&self) -> (r: usize)
        ensures
            r == self@.cursor,
            r <= self@.buf.len(),
    {
        proof {
            use_type_invariant(self);
        }
        self.cursor
    }

    fn set(&mut self, buf: Vec<char>, cursor: usize, sel: Option<usize>)
        requires
            cursor <= buf@.len(),
        ensures
            final(self).buf == buf,
            final(self).cursor == cursor,
            final(self).sel == sel,
    {
        *self = LineEditor { buf, cursor, sel };
    }

    /// React to one key press, given the names of all themes.
    pub fn step(&mut self, key: EditKey, themes: &Vec<String>) -> (r: EditOutcome)
        ensures
            (final(self)@, outcome_model(r)) == step_model(old(self)@, key, strings_view(themes@)),
            final(self)@.cursor <= final(self)@.buf.len(),
    {
        proof {
            use_type_invariant(&*self);
        }
        let ghost st = self@;
        let items = menu_items_exec(&self.buf, themes);
        let f_text = menu_filter_exec(&self.buf);
        let filtered = prefix_matches_exec(&items, &f_text);
        proof {
            lemma_prefix_matches_bounds(pairs_view(items@), f_text@, items@.len() as int);
        }
        let n = filtered.len();
        let sel: Option<usize> = if n == 0 {
            None
        } else {
            match self.sel {
                None => Some(0),
                Some(k) => Some(if k < n { k } else { n - 1 }),
            }
        };
        let mode = menu_mode_exec(&self.buf);
        let theme_mode = match mode {
            MenuMode::Theme => true,
            _ => false,
        };
        let show = match mode {
            MenuMode::Off => false,
            _ => true,
        };
        let ghost iv = pairs_view(items@);
        let ghost fv = menu_filtered(st.buf, strings_view(themes@));
        assert(iv == menu_items(st.buf, strings_view(themes@)));
        assert(fv.len() == n);
        let buf_len = self.buf.len();
        let cursor = self.cursor;
        match key {
            EditKey::Enter => {
                let line: Vec<char> = match sel {
                    Some(k) => {
                        let idx = filtered[k];
                        assert(idx as int == prefix_matches(iv, f_text@, items@.len() as int)[k as int]);
                        assert(idx < items@.len());
                        assert(iv[idx as int] == (items@[idx as int].0@, items@[idx as int].1@));
                        let selected = &items[idx].0;
                        if chars_eq(selected, &chars_of("/theme")) && !theme_mode {
                            proof {
                                reveal_strlit("/theme ");
                            }
                            let b = chars_of("/theme ");
                            self.set(b, 7, Some(0));
                            return EditOutcome::Continue;
                        }
                        if theme_mode {
                            concat_chars(&chars_of("/theme "), selected)
                        } else {
                            slice_chars_all(selected)
                        }
                    },
                    None => slice_chars_all(&self.buf),
                };
                self.set(Vec::new(), 0, None);
                if chars_eq(&trim_chars(&line), &chars_of("/")) {
                    EditOutcome::Continue
                } else {
                    EditOutcome::Submit(string_of(&line))
                }
            },
            EditKey::Tab => {
                match sel {
                    Some(k) => {
                        let idx = filtered[k];
                        assert(idx as int == prefix_matches(iv, f_text@, items@.len() as int)[k as int]);
                        assert(idx < items@.len());
                        assert(iv[idx as int] == (items@[idx as int].0@, items@[idx as int].1@));
                        let selected = &items[idx].0;
                        let line = if theme_mode {
                            concat_chars(&chars_of("/theme "), selected)
                        } else if chars_eq(selected, &chars_of("/theme")) {
                            chars_of("/theme ")
                        } else {
                            slice_chars_all(selected)
                        };
                        let len = line.len();
                        self.set(line, len, Some(0));
                    },
                    None => {
                        self.sel = sel;
                    },
                }
                EditOutcome::Continue
            },
            EditKey::Esc => {
                if show || sel.is_some() {
                    self.set(Vec::new(), 0, None);
                    EditOutcome::Continue
                } else {
                    self.set(Vec::new(), 0, None);
                    EditOutcome::Submit(String::new())
                }
            },
            EditKey::Interrupt => {
                self.set(Vec::new(), 0, None);
                EditOutcome::Cancel
            },
            EditKey::Up => {
                match sel {
                    Some(k) => {
                        self.sel = Some(if k == 0 { n - 1 } else { k - 1 });
                    },
                    None => {
                        self.sel = sel;
                    },
                }
                EditOutcome::Continue
            },
            EditKey::Down => {
                match sel {
                    Some(k) => {
                        self.sel = Some(if k + 1 >= n { 0 } else { k + 1 });
                    },
                    None => {
                        self.sel = sel;
                    },
                }
                EditOutcome::Continue
            },
            EditKey::Backspace => {
                if cursor > 0 {
                    let mut b = slice_chars_all(&self.buf);
                    b.remove(cursor - 1);
                    self.set(b, cursor - 1, None);
                } else {
                    self.sel = sel;
                }
                EditOutcome::Continue
            },
            EditKey::Delete => {
                if cursor < buf_len {
                    let mut b = slice_chars_all(&self.buf);
                    b.remove(cursor);
                    self.set(b, cursor, None);
                } else {
                    self.sel = sel;
                }
                EditOutcome::Continue
            },
            EditKey::Left => {
                self.sel = sel;
                if cursor > 0 {
                    self.cursor = cursor - 1;
                }
                EditOutcome::Continue
            },
            EditKey::Right => {
                self.sel = sel;
                if cursor < buf_len {
                    self.cursor = cursor + 1;
                }
                EditOutcome::Continue
            },
            EditKey::Home => {
                self.sel = sel;
                self.cursor = 0;
                EditOutcome::Continue
            },
            EditKey::End => {
                self.sel = sel;
                self.cursor = buf_len;
                EditOutcome::Continue
            },
            EditKey::Char(c) => {
                let mut b = slice_chars_all(&self.buf);
                b.insert(cursor, c);
                assert(b.len() == b@.len());
                self.set(b, cursor + 1, None);
                EditOutcome::Continue
            },
            EditKey::Other => {
                self.sel = sel;
                EditOutcome::Continue
            },
        }
    }
}

impl LineEditor {
    /// The dropdown for the current buffer, as the prompt draws it.
    pub fn menu(&self, themes: &Vec<String>) -> (r: MenuView)
        ensures
            r.items@.map_values(|p: (String, String)| (p.0@, p.1@)) == menu_items(
                self@.buf,
                strings_view(themes@),
            ),
            r.filtered@.len() == menu_filtered(self@.buf, strings_view(themes@)).len(),
            forall|k: int|
                0 <= k < r.filtered@.len() ==> r.filtered@[k] as int == #[trigger] menu_filtered(
                    self@.buf,
                    strings_view(themes@),
                )[k],
            match r.selected {
                Some(k) => clamp_sel(self@.sel, r.filtered@.len()) == Some(k as nat),
                None => clamp_sel(self@.sel, r.filtered@.len()) is None,
            },
            match r.preview_theme {
                Some(t) => menu_mode(self@.buf) is Theme && r.selected is Some && t
                    == r.filtered@[r.selected->0 as int] && t < themes@.len(),
                None => !(menu_mode(self@.buf) is Theme) || r.selected is None,
            },
    {
        let items = menu_items_exec(&self.buf, themes);
        let f_text = menu_filter_exec(&self.buf);
        let filtered = prefix_matches_exec(&items, &f_text);
        proof {
            lemma_prefix_matches_bounds(pairs_view(items@), f_text@, items@.len() as int);
        }
        let n = filtered.len();
        let selected: Option<usize> = if n == 0 {
            None
        } else {
            match self.sel {
                None => Some(0),
                Some(k) => Some(if k < n { k } else { n - 1 }),
            }
        };
        let theme_mode = match menu_mode_exec(&self.buf) {
            MenuMode::Theme => true,
            _ => false,
        };
        let preview_theme = match selected {
            Some(k) => if theme_mode {
                assert(pairs_view(items@).len() == themes@.len());
                assert(filtered@[k as int] as int == prefix_matches(
                    pairs_view(items@),
                    f_text@,
                    items@.len() as int,
                )[k as int]);
                Some(filtered[k])
            } else {
                None
            },
            None => None,
        };
        let mut out: Vec<(String, String)> = Vec::new();
        let mut i: usize = 0;
        while i < items.len()
            invariant
                i <= items@.len(),
                out@.len() == i,
                forall|k: int|
                    0 <= k < i ==> (#[trigger] out@[k]).0@ == items@[k].0@ && out@[k].1@
                        == items@[k].1@,
            decreases items.len() - i,
        {
            out.push((string_of(&items[i].0), string_of(&items[i].1)));
            i = i + 1;
        }
        assert(out@.map_values(|p: (String, String)| (p.0@, p.1@)) =~= pairs_view(items@));
        MenuView { items: out, filtered, selected, preview_theme }
    }
}

/// Typing a character and then pressing Backspace gives back the same text
/// and cursor.
pub proof fn law_type_then_backspace(st: EditorModel, c: char, themes: Seq<Seq<char>>)
    requires
        st.cursor <= st.buf.len(),
    ensures
        ({
            let s1 = step_model(st, EditKey::Char(c), themes).0;
            let (s2, o) = step_model(s1, EditKey::Backspace, themes);
            s2.buf == st.buf && s2.cursor == st.cursor && o is Continue
        }),
{
    let s1 = step_model(st, EditKey::Char(c), themes).0;
    assert(s1.buf.remove(st.cursor as int) =~= st.buf);
}

/// Moving left and then right returns the cursor to where it was, unless
/// it was at the start; the text does not change.
pub proof fn law_left_then_right(st: EditorModel, themes: Seq<Seq<char>>)
    requires
        0 < st.cursor <= st.buf.len(),
    ensures
        ({
            let s1 = step_model(st, EditKey::Left, themes).0;
            let (s2, o) = step_model(s1, EditKey::Right, themes);
            s2.buf == st.buf && s2.cursor == st.cursor && o is Continue
        }),
{
}

/// Ctrl-C always ends the prompt without a line.
pub proof fn law_interrupt_cancels(st: EditorModel, themes: Seq<Seq<char>>)
    ensures
        step_model(st, EditKey::Interrupt, themes).1 is Cancel,
{
}

/// Text that is not a slash command is entered exactly as typed (unless it
/// is a lone `/` with white space around it).
pub proof fn law_enter_submits_text(st: EditorModel, themes: Seq<Seq<char>>)
    requires
        !starts_with(st.buf, "/"@),
        trim(st.buf) != "/"@,
    ensures
        step_model(st, EditKey::Enter, themes).1 == OutcomeModel::Submit(st.buf),
{
    lemma_not_prefix_longer(st.buf);
    assert(menu_items(st.buf, themes) =~= Seq::empty());
}

/// Esc with no dropdown shown enters an empty line.
pub proof fn law_escape_without_menu(st: EditorModel, themes: Seq<Seq<char>>)
    requires
        !starts_with(st.buf, "/"@),
    ensures
        step_model(st, EditKey::Esc, themes).1 == OutcomeModel::Submit(Seq::empty()),
{
    lemma_not_prefix_longer(st.buf);
    assert(menu_items(st.buf, themes) =~= Seq::empty());
}

proof fn lemma_not_prefix_longer(buf: Seq<char>)
    requires
        !starts_with(buf, "/"@),
    ensures
        !starts_with(buf, "/theme "@),
        !starts_with(buf, "/clear "@),
{
    reveal_strlit("/");
    reveal_strlit("/theme ");
    reveal_strlit("/clear ");
    if starts_with(buf, "/theme "@) {
        assert(buf.subrange(0, 7)[0] == '/');
        assert(buf.subrange(0, 1) =~= "/"@);
    }
    if starts_with(buf, "/clear "@) {
        assert(buf.subrange(0, 7)[0] == '/');
        assert(buf.subrange(0, 1) =~= "/"@);
    }
}

fn slice_chars_all(v: &[char]) -> (r: Vec<char>)
    ensures
        r@ == v@,
{
    let r = crate::text::slice_chars(v, 0, v.len());
    assert(v@.subrange(0, v@.len() as int) == v@);
    r
}

} // verus!
