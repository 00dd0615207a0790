//! The chat prompt with input history: a dropdown of slash commands while a
//! `/` command is typed, recall of earlier lines with Up and Down, and the
//! usual line-editing shortcuts.
use vstd::prelude::*;
use crate::input::{
    entry, lemma_prefix_matches_bounds, outcome_model, pairs_view, prefix_matches,
    prefix_matches_exec, EditOutcome, OutcomeModel,
};
use crate::text::{
    chars_of, is_white_space, is_whitespace, lemma_trim_end_take, slice_chars, starts_with,
    starts_with_exec, string_of, trim, trim_chars, trim_end,
};

verus! {

/// The slash commands of the dropdown, with their descriptions, in order.
pub open spec fn prompt_commands() -> Seq<(Seq<char>, Seq<char>)> {
    seq![
        ("/clear"@, "clear data (conversations, profile, models, config)"@),
        ("/help"@, "show this help"@),
        ("/memory"@, "show what Aide currently knows about you"@),
        ("/models"@, "list available models"@),
        ("/system"@, "show system information"@),
        ("/theme"@, "list, switch, or create color themes"@),
    ]
}

/// The indices of the commands shown for `buf`: those it is a prefix of,
/// when it starts with `/`.
pub open spec fn prompt_filtered(buf: Seq<char>) -> Seq<int> {
    if starts_with(buf, "/"@) {
        prefix_matches(prompt_commands(), buf, 6)
    } else {
        Seq::empty()
    }
}

/// The state of the prompt: the text typed, the cursor (a character index),
/// the highlighted dropdown row, and the recalled history entry.
pub struct PromptModel {
    pub buf: Seq<char>,
    pub cursor: nat,
    pub sel: Option<nat>,
    pub hist: Option<nat>,
}

/// A key press that the prompt reacts to.
#[derive(Clone, Copy)]
pub enum PromptKey {
    Enter,
    /// Ctrl-C.
    Interrupt,
    /// Ctrl-D.
    EndOfInput,
    /// Ctrl-W.
    DeleteWord,
    /// Ctrl-A.
    LineStart,
    /// Ctrl-E.
    LineEnd,
    /// Ctrl-U.
    KillToStart,
    Home,
    End,
    Left,
    Right,
    Up,
    Down,
    Tab,
    Esc,
    Backspace,
    Delete,
    Char(char),
    /// Any other key: nothing happens.
    Other,
}

/// A highlighted row kept within the `n` rows shown; none stays none.
pub open spec fn keep_sel(sel: Option<nat>, n: nat) -> Option<nat> {
    if n == 0 {
        None
    } else {
        match sel {
            None => None,
            Some(k) => Some(if k < n { k } else { (n - 1) as nat }),
        }
    }
}

/// The index of the last space of `t`.
pub open spec fn last_space(t: Seq<char>) -> Option<int>
    decreases t.len(),
{
    if t.len() == 0 {
        None
    } else if t.last() == ' ' {
        Some(t.len() - 1)
    } else {
        last_space(t.drop_last())
    }
}

/// Where Ctrl-W cuts back to from the text `before` the cursor: just after
/// its last space once trailing white space is set aside, or the start.
pub open spec fn word_start(before: Seq<char>) -> int {
    match last_space(trim_end(before)) {
        Some(i) => i + 1,
        None => 0,
    }
}

/// The empty prompt.
pub open spec fn fresh_prompt() -> PromptModel {
    PromptModel { buf: Seq::empty(), cursor: 0, sel: None, hist: None }
}

/// One key press, given the earlier lines: the next state and what it leads to.
pub open spec fn prompt_step(st: PromptModel, key: PromptKey, history: Seq<Seq<char>>) -> (
    PromptModel,
    OutcomeModel,
) {
    let buf = st.buf;
    let f = prompt_filtered(buf);
    let n = f.len();
    let sel = keep_sel(st.sel, n);
    let here = PromptModel { buf, cursor: st.cursor, sel, hist: st.hist };
    let cleared = PromptModel { buf: Seq::empty(), cursor: 0, sel: None, hist: st.hist };
    match key {
        PromptKey::Enter => match sel {
            Some(k) => (fresh_prompt(), OutcomeModel::Submit(prompt_commands()[f[k as int]].0)),
            None => if trim(buf) == "/"@ {
                (cleared, OutcomeModel::Continue)
            } else {
                (fresh_prompt(), OutcomeModel::Submit(buf))
            },
        },
        PromptKey::Interrupt => (fresh_prompt(), OutcomeModel::Cancel),
        PromptKey::EndOfInput => (fresh_prompt(), OutcomeModel::Cancel),
        PromptKey::DeleteWord => if st.cursor > 0 {
            let w = word_start(buf.take(st.cursor as int));
            (
                PromptModel {
                    buf: buf.take(w) + buf.skip(st.cursor as int),
                    cursor: w as nat,
                    sel: None,
                    hist: st.hist,
                },
                OutcomeModel::Continue,
            )
        } else {
            (here, OutcomeModel::Continue)
        },
        PromptKey::LineStart => (PromptModel { cursor: 0, ..here }, OutcomeModel::Continue),
        PromptKey::Home => (PromptModel { cursor: 0, ..here }, OutcomeModel::Continue),
        PromptKey::LineEnd => (PromptModel { cursor: buf.len(), ..here }, OutcomeModel::Continue),
        PromptKey::End => (PromptModel { cursor: buf.len(), ..here }, OutcomeModel::Continue),
        PromptKey::KillToStart => (
            PromptModel { buf: buf.skip(st.cursor as int), cursor: 0, sel: None, hist: st.hist },
            OutcomeModel::Continue,
        ),
        PromptKey::Left => (
            PromptModel { cursor: if st.cursor > 0 { (st.cursor - 1) as nat } else { 0 }, ..here },
            OutcomeModel::Continue,
        ),
        PromptKey::Right => (
            PromptModel {
                cursor: if st.cursor < buf.len() { st.cursor + 1 } else { buf.len() },
                ..here
            },
            OutcomeModel::Continue,
        ),
        PromptKey::Up => if n > 0 {
            let k = match sel {
                None => (n - 1) as nat,
                Some(k) => if k == 0 { (n - 1) as nat } else { (k - 1) as nat },
            };
            (PromptModel { sel: Some(k), ..here }, OutcomeModel::Continue)
        } else if history.len() > 0 {
            let idx: nat = match st.hist {
                None => (history.len() - 1) as nat,
                Some(i) => if i > 0 { (i - 1) as nat } else { i },
            };
            (
                PromptModel { buf: history[idx as int], cursor: history[idx as int].len(), sel: None, hist: Some(idx) },
                OutcomeModel::Continue,
            )
        } else {
            (here, OutcomeModel::Continue)
        },
        PromptKey::Down => if n > 0 {
            let k: nat = match sel {
                None => 0,
                Some(k) => if k + 1 >= n { 0 } else { k + 1 },
            };
            (PromptModel { sel: Some(k), ..here }, OutcomeModel::Continue)
        } else {
            match st.hist {
                None => (PromptModel { sel: None, ..here }, OutcomeModel::Continue),
                Some(i) => if i + 1 >= history.len() {
                    (fresh_prompt(), OutcomeModel::Continue)
                } else {
                    (
                        PromptModel {
                            buf: history[(i + 1) as int],
                            cursor: history[(i + 1) as int].len(),
                            sel: None,
                            hist: Some(i + 1),
                        },
                        OutcomeModel::Continue,
                    )
                },
            }
        },
        PromptKey::Tab => if n > 0 {
            let s: nat = match sel {
                None => 0,
                Some(k) => k,
            };
            let line = prompt_commands()[f[s as int]].0;
            (PromptModel { buf: line, cursor: line.len(), sel: Some(s), hist: st.hist }, OutcomeModel::Continue)
        } else {
            (here, OutcomeModel::Continue)
        },
        PromptKey::Esc => if starts_with(buf, "/"@) {
            (cleared, OutcomeModel::Continue)
        } else {
            (here, OutcomeModel::Continue)
        },
        PromptKey::Backspace => if st.cursor > 0 {
            (
                PromptModel { buf: buf.remove(st.cursor - 1), cursor: (st.cursor - 1) as nat, sel: None, hist: None },
                OutcomeModel::Continue,
            )
        } else {
            (here, OutcomeModel::Continue)
        },
        PromptKey::Delete => if st.cursor < buf.len() {
            (
                PromptModel { buf: buf.remove(st.cursor as int), cursor: st.cursor, sel: None, hist: st.hist },
                OutcomeModel::Continue,
            )
        } else {
            (here, OutcomeModel::Continue)
        },
        PromptKey::Char(c) => (
            PromptModel { buf: buf.insert(st.cursor as int, c), cursor: st.cursor + 1, sel: None, hist: None },
            OutcomeModel::Continue,
        ),
        PromptKey::Other => (here, OutcomeModel::Continue),
    }
}

fn prompt_commands_exec() -> (r: Vec<(Vec<char>, Vec<char>)>)
    ensures
        pairs_view(r@) == prompt_commands(),
{
    let r = vec![
        entry("/clear", "clear data (conversations, profile, models, config)"),
        entry("/help", "show this help"),
        entry("/memory", "show what Aide currently knows about you"),
        entry("/models", "list available models"),
        entry("/system", "show system information"),
        entry("/theme", "list, switch, or create color themes"),
    ];
    assert(pairs_view(r@) =~= prompt_commands());
    r
}

/// The dropdown rows for `buf`, as indices into `cmds`.
fn filtered_exec(buf: &[char], cmds: &Vec<(Vec<char>, Vec<char>)>) -> (r: Vec<usize>)
    requires
        pairs_view(cmds@) == prompt_commands(),
    ensures
        r@.len() == prompt_filtered(buf@).len(),
        forall|k: int| 0 <= k < r@.len() ==> r@[k] as int == #[trigger] prompt_filtered(buf@)[k],
        forall|k: int| 0 <= k < r@.len() ==> r@[k] < 6,
{
    proof {
        lemma_prefix_matches_bounds(prompt_commands(), buf@, 6);
    }
    assert(cmds@.len() == 6) by {
        assert(pairs_view(cmds@).len() == cmds@.len());
    }
    if starts_with_exec(buf, &chars_of("/")) {
        let r = prefix_matches_exec(cmds, buf);
        assert forall|k: int| 0 <= k < r@.len() implies r@[k] < 6 by {
            assert(r@[k] as int == prefix_matches(prompt_commands(), buf@, 6)[k]);
        }
        r
    } else {
        Vec::new()
    }
}

/// Where Ctrl-W cuts back to from `cursor`.
fn word_start_exec(buf: &[char], cursor: usize) -> (r: usize)
    requires
        cursor <= buf@.len(),
    ensures
        r as int == word_start(buf@.take(cursor as int)),
        r <= cursor,
{
    let ghost p = buf@.take(cursor as int);
    let mut j = cursor;
    while j > 0 && is_whitespace(buf[j - 1])
        invariant
            j <= cursor <= buf@.len(),
            p == buf@.take(cursor as int),
            forall|k: int| j <= k < cursor ==> is_white_space(#[trigger] buf@[k]),
        decreases j,
    {
        j = j - 1;
    }
    proof {
        assert forall|k: int| j <= k < p.len() implies is_white_space(#[trigger] p[k]) by {
            assert(p[k] == buf@[k]);
        }
        if j > 0 {
            assert(p[j - 1] == buf@[j - 1]);
        }
        lemma_trim_end_take(p, j as int);
    }
    let ghost t = p.take(j as int);
    assert(t.take(j as int) =~= t);
    let mut k = j;
    while k > 0 && buf[k - 1] != ' '
        invariant
            k <= j <= cursor <= buf@.len(),
            t == buf@.take(j as int),
            last_space(t) == last_space(t.take(k as int)),
        decreases k,
    {
        assert(t.take(k as int).drop_last() =~= t.take(k - 1));
        assert(t.take(k as int).last() == buf@[k - 1]);
        k = k - 1;
    }
    if k == 0 {
        assert(t.take(0) =~= Seq::<char>::empty());
        0
    } else {
        assert(t.take(k as int).last() == buf@[k - 1]);
        k
    }
}

/// Where the prompt stands: text, cursor, highlighted row, recalled entry.
struct PromptState {
    buf: Vec<char>,
    cursor: usize,
    sel: Option<usize>,
    hist: Option<usize>,
}

/// The chat prompt being edited, with the earlier lines it can recall.
pub struct HistoryPrompt {
    state: PromptState,
    history: Vec<Vec<char>>,
}

/// The dropdown as it is drawn: the commands shown (name and description)
/// and the highlighted row, if any.
pub struct PromptMenu {
    pub entries: Vec<(String, String)>,
    pub selected: Option<usize>,
}

/// The characters of each line.
pub open spec fn lines_view(v: Seq<Vec<char>>) -> Seq<Seq<char>> {
    v.map_values(|x: Vec<char>| x@)
}

impl View for HistoryPrompt {
    type V = PromptModel;

    closed spec fn view(&self) -> PromptModel {
        PromptModel {
            buf: self.state.buf@,
            cursor: self.state.cursor as nat,
            sel: match self.state.sel {
                Some(k) => Some(k as nat),
                None => None,
            },
            hist: match self.state.hist {
                Some(k) => Some(k as nat),
                None => None,
            },
        }
    }
}

impl HistoryPrompt {
    #[verifier::type_invariant]
    closed spec fn inv(&self) -> bool {
        &&& self.state.cursor <= self.state.buf@.len()
        &&& self.state.hist matches Some(i) ==> i < self.history@.len()
    }

    /// The earlier lines the prompt recalls, oldest first.
    pub closed spec fn recall(&self) -> Seq<Seq<char>> {
        lines_view(self.history@)
    }

    /// An empty prompt over the earlier lines `history` (oldest first).
    pub fn new(history: &[String]) -> (r: HistoryPrompt)
        ensures
            r@ == fresh_prompt(),
            r.recall() == history@.map_values(|s: String| s@),
    {
        let mut h: Vec<Vec<char>> = Vec::new();
        let mut i: usize = 0;
        while i < history.len()
            invariant
                i <= history@.len(),
                lines_view(h@) == history@.map_values(|s: String| s@).take(i as int),
            decreases history.len() - i,
        {
            let ghost before = h@;
            h.push(chars_of(history[i].as_str()));
            assert(lines_view(h@) =~= lines_view(before).push(history@[i as int]@));
            i = i + 1;
            assert(history@.map_values(|s: String| s@).take(i as int) =~= history@.map_values(
                |s: String| s@,
            ).take(i - 1).push(history@[i - 1]@));
        }
        assert(history@.map_values(|s: String| s@).take(history@.len() as int) =~= history@.map_values(
            |s: String| s@,
        ));
        HistoryPrompt {
            state: PromptState { buf: Vec::new(), cursor: 0, sel: None, hist: None },
            history: h,
        }
    }

    /// The text typed so far.
    pub fn buffer(&self) -> (r: String)
        ensures
            r@ == self@.buf,
    {
        string_of(&self.state.buf)
    }

    /// The cursor, as a number of characters from the start.
    pub fn cursor(&self) -> (r: usize)
        ensures
            r == self@.cursor,
            r <= self@.buf.len(),
    {
        proof {
            use_type_invariant(self);
        }
        self.state.cursor
    }

    /// The dropdown for the current text.
    pub fn menu(&self) -> (r: PromptMenu)
        ensures
            r.entries@.map_values(|p: (String, String)| (p.0@, p.1@)) == prompt_filtered(
                self@.buf,
            ).map_values(|i: int| prompt_commands()[i]),
            match r.selected {
                Some(k) => keep_sel(self@.sel, r.entries@.len()) == Some(k as nat),
                None => keep_sel(self@.sel, r.entries@.len()) is None,
            },
    {
        let cmds = prompt_commands_exec();
        let f = filtered_exec(&self.state.buf, &cmds);
        let ghost fv = prompt_filtered(self@.buf);
        let mut entries: Vec<(String, String)> = Vec::new();
        let mut i: usize = 0;
        while i < f.len()
            invariant
                i <= f@.len(),
                fv == prompt_filtered(self@.buf),
                f@.len() == fv.len(),
                forall|k: int| 0 <= k < f@.len() ==> f@[k] as int == #[trigger] fv[k],
                forall|k: int| 0 <= k < f@.len() ==> f@[k] < 6,
                pairs_view(cmds@) == prompt_commands(),
                entries@.map_values(|p: (String, String)| (p.0@, p.1@)) == fv.take(i as int).map_values(
                    |j: int| prompt_commands()[j],
                ),
            decreases f.len() - i,
        {
            let idx = f[i];
            assert(cmds@.len() == 6) by {
                assert(pairs_view(cmds@).len() == cmds@.len());
            }
            assert(pairs_view(cmds@)[idx as int] == (cmds@[idx as int].0@, cmds@[idx as int].1@));
            let ghost before = entries@;
            entries.push((string_of(&cmds[idx].0), string_of(&cmds[idx].1)));
            assert(entries@.map_values(|p: (String, String)| (p.0@, p.1@)) =~= before.map_values(
                |p: (String, String)| (p.0@, p.1@),
            ).push(prompt_commands()[fv[i as int]]));
            i = i + 1;
            assert(fv.take(i as int).map_values(|j: int| prompt_commands()[j]) =~= fv.take(i - 1).map_values(
                |j: int| prompt_commands()[j],
            ).push(prompt_commands()[fv[i - 1]]));
        }
        assert(fv.take(fv.len() as int) =~= fv);
        let n = f.len();
        let selected = if n == 0 {
            None
        } else {
            match self.state.sel {
                None => None,
                Some(k) => Some(if k < n { k } else { n - 1 }),
            }
        };
        PromptMenu { entries, selected }
    }
}

impl HistoryPrompt {
    fn set(&mut self, buf: Vec<char>, cursor: usize, sel: Option<usize>, hist: Option<usize>)
        requires
            cursor <= buf@.len(),
            hist matches Some(i) ==> i < old(self).history@.len(),
        ensures
            final(self).state.buf == buf,
            final(self).state.cursor == cursor,
            final(self).state.sel == sel,
            final(self).state.hist == hist,
            final(self).history == old(self).history,
    {
        self.state = PromptState { buf, cursor, sel, hist };
    }

    /// React to one key press.
    #[verifier::rlimit(60)]
    pub fn step(&mut self, key: PromptKey) -> (r: EditOutcome)
        ensures
            (final(self)@, outcome_model(r)) == prompt_step(old(self)@, key, old(self).recall()),
            final(self).recall() == old(self).recall(),
    {
        proof {
            use_type_invariant(&*self);
        }
        let ghost st = self@;
        let cmds = prompt_commands_exec();
        let f = filtered_exec(&self.state.buf, &cmds);
        let ghost fv = prompt_filtered(st.buf);
        assert(cmds@.len() == 6) by {
            assert(pairs_view(cmds@).len() == cmds@.len());
        }
        let n = f.len();
        let sel: Option<usize> = if n == 0 {
            None
        } else {
            match self.state.sel {
                None => None,
                Some(k) => Some(if k < n { k } else { n - 1 }),
            }
        };
        let cursor = self.state.cursor;
        let buf_len = self.state.buf.len();
        let hist = self.state.hist;
        let hlen = self.history.len();
        proof {
            assert(lines_view(self.history@).len() == self.history@.len());
        }
        match key {
            PromptKey::Enter => {
                match sel {
                    Some(k) => {
                        let idx = f[k];
                        assert(pairs_view(cmds@)[idx as int].0 == cmds@[idx as int].0@);
                        let line = string_of(&cmds[idx].0);
                        self.set(Vec::new(), 0, None, None);
                        EditOutcome::Submit(line)
                    },
                    None => {
                        let t = trim_chars(&self.state.buf);
                        if crate::text::eq_lit(&t, "/") {
                            self.set(Vec::new(), 0, None, hist);
                            EditOutcome::Continue
                        } else {
                            let line = string_of(&self.state.buf);
                            self.set(Vec::new(), 0, None, None);
                            EditOutcome::Submit(line)
                        }
                    },
                }
            },
            PromptKey::Interrupt => {
                self.set(Vec::new(), 0, None, None);
                EditOutcome::Cancel
            },
            PromptKey::EndOfInput => {
                self.set(Vec::new(), 0, None, None);
                EditOutcome::Cancel
            },
            PromptKey::DeleteWord => {
                if cursor > 0 {
                    let w = word_start_exec(&self.state.buf, cursor);
                    let head = slice_chars(&self.state.buf, 0, w);
                    let tail = slice_chars(&self.state.buf, cursor, buf_len);
                    let b = crate::text::concat_chars(&head, &tail);
                    assert(head@ =~= st.buf.take(w as int));
                    assert(tail@ =~= st.buf.skip(cursor as int));
                    self.set(b, w, None, hist);
                } else {
                    self.state.sel = sel;
                }
                EditOutcome::Continue
            },
            PromptKey::LineStart | PromptKey::Home => {
                self.state.sel = sel;
                self.state.cursor = 0;
                EditOutcome::Continue
            },
            PromptKey::LineEnd | PromptKey::End => {
                self.state.sel = sel;
                self.state.cursor = buf_len;
                EditOutcome::Continue
            },
            PromptKey::KillToStart => {
                let b = slice_chars(&self.state.buf, cursor, buf_len);
                assert(b@ =~= st.buf.skip(cursor as int));
                self.set(b, 0, None, hist);
                EditOutcome::Continue
            },
            PromptKey::Left => {
                self.state.sel = sel;
                if cursor > 0 {
                    self.state.cursor = cursor - 1;
                }
                EditOutcome::Continue
            },
            PromptKey::Right => {
                self.state.sel = sel;
                if cursor < buf_len {
                    self.state.cursor = cursor + 1;
                }
                EditOutcome::Continue
            },
            PromptKey::Up => {
                if n > 0 {
                    self.state.sel = Some(
                        match sel {
                            None => n - 1,
                            Some(k) => if k == 0 { n - 1 } else { k - 1 },
                        },
                    );
                } else if hlen > 0 {
                    let idx: usize = match hist {
                        None => hlen - 1,
                        Some(i) => if i > 0 { i - 1 } else { i },
                    };
                    let b = slice_chars(&self.history[idx], 0, self.history[idx].len());
                    assert(b@ =~= self.recall()[idx as int]);
                    let len = b.len();
                    self.set(b, len, None, Some(idx));
                } else {
                    self.state.sel = sel;
                }
                EditOutcome::Continue
            },
            PromptKey::Down => {
                if n > 0 {
                    self.state.sel = Some(
                        match sel {
                            None => 0,
                            Some(k) => if k + 1 >= n { 0 } else { k + 1 },
                        },
                    );
                } else {
                    match hist {
                        None => {
                            self.state.sel = None;
                        },
                        Some(i) => {
                            if i + 1 >= hlen {
                                self.set(Vec::new(), 0, None, None);
                            } else {
                                let b = slice_chars(&self.history[i + 1], 0, self.history[i + 1].len());
                                assert(b@ =~= self.recall()[i + 1]);
                                let len = b.len();
                                self.set(b, len, None, Some(i + 1));
                            }
                        },
                    }
                }
                EditOutcome::Continue
            },
            PromptKey::Tab => {
                if n > 0 {
                    let s: usize = match sel {
                        None => 0,
                        Some(k) => k,
                    };
                    let idx = f[s];
                    assert(pairs_view(cmds@)[idx as int].0 == cmds@[idx as int].0@);
                    let b = slice_chars(&cmds[idx].0, 0, cmds[idx].0.len());
                    assert(b@ =~= cmds@[idx as int].0@);
                    let len = b.len();
                    self.set(b, len, Some(s), hist);
                } else {
                    self.state.sel = sel;
                }
                EditOutcome::Continue
            },
            PromptKey::Esc => {
                if starts_with_exec(&self.state.buf, &chars_of("/")) {
                    self.set(Vec::new(), 0, None, hist);
                } else {
                    self.state.sel = sel;
                }
                EditOutcome::Continue
            },
            PromptKey::Backspace => {
                if cursor > 0 {
                    let mut b = slice_chars(&self.state.buf, 0, buf_len);
                    assert(b@ =~= st.buf);
                    b.remove(cursor - 1);
                    self.set(b, cursor - 1, None, None);
                } else {
                    self.state.sel = sel;
                }
                EditOutcome::Continue
            },
            PromptKey::Delete => {
                if cursor < buf_len {
                    let mut b = slice_chars(&self.state.buf, 0, buf_len);
                    assert(b@ =~= st.buf);
                    b.remove(cursor);
                    self.set(b, cursor, None, hist);
                } else {
                    self.state.sel = sel;
                }
                EditOutcome::Continue
            },
            PromptKey::Char(c) => {
                let mut b = slice_chars(&self.state.buf, 0, buf_len);
                assert(b@ =~= st.buf);
                b.insert(cursor, c);
                assert(b.len() == b@.len());
                self.set(b, cursor + 1, None, None);
                EditOutcome::Continue
            },
            PromptKey::Other => {
                self.state.sel = sel;
                EditOutcome::Continue
            },
        }
    }
}

/// With no command being typed, Up recalls the most recent earlier line,
/// with the cursor at its end.
pub proof fn law_up_recalls_last_line(st: PromptModel, history: Seq<Seq<char>>)
    requires
        !starts_with(st.buf, "/"@),
        st.hist is None,
        history.len() > 0,
    ensures
        ({
            let (s1, o) = prompt_step(st, PromptKey::Up, history);
            &&& s1.buf == history.last()
            &&& s1.cursor == history.last().len()
            &&& s1.hist == Some((history.len() - 1) as nat)
            &&& o is Continue
        }),
{
}

/// Recalling the most recent line with Up and going back down with Down
/// leaves an empty prompt, when that line is not a command.
pub proof fn law_up_then_down_clears(st: PromptModel, history: Seq<Seq<char>>)
    requires
        !starts_with(st.buf, "/"@),
        st.hist is None,
        history.len() > 0,
        !starts_with(history.last(), "/"@),
    ensures
        ({
            let s1 = prompt_step(st, PromptKey::Up, history).0;
            let (s2, o) = prompt_step(s1, PromptKey::Down, history);
            s2 == fresh_prompt() && o is Continue
        }),
{
}

/// Text that is not a command is entered exactly as typed (unless it is a
/// lone `/` with white space around it).
pub proof fn law_prompt_enter_submits_text(st: PromptModel, history: Seq<Seq<char>>)
    requires
        !starts_with(st.buf, "/"@),
        trim(st.buf) != "/"@,
    ensures
        prompt_step(st, PromptKey::Enter, history).1 == OutcomeModel::Submit(st.buf),
{
}

/// Ctrl-D always ends the input, whatever the prompt holds, and leaves an
/// empty prompt behind.
pub proof fn law_end_of_input(st: PromptModel, history: Seq<Seq<char>>)
    ensures
        prompt_step(st, PromptKey::EndOfInput, history) == (fresh_prompt(), OutcomeModel::Cancel),
{
}

} // verus!
