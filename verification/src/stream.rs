//! The streaming renderer of the chat: while tokens arrive it separates
//! prose from fenced code, holding back the last bytes so that a fence split
//! across tokens is still recognised.
use vstd::prelude::*;
use crate::chat::image_ext;
use crate::text::{chars_of, find, find_from_exec, slice_chars, string_of, trim, trim_chars};

verus! {

/// The number of bytes of the UTF-8 encoding of `c`, as `char::len_utf8` gives it.
pub open spec fn utf8_width(c: char) -> nat {
    let u = c as u32;
    if u < 0x80 {
        1
    } else if u < 0x800 {
        2
    } else if u < 0x10000 {
        3
    } else {
        4
    }
}

/// The number of bytes of the UTF-8 encoding of `s`.
pub open spec fn utf8_len(s: Seq<char>) -> nat
    decreases s.len(),
{
    if s.len() == 0 {
        0
    } else {
        utf8_len(s.drop_last()) + utf8_width(s.last())
    }
}

/// `char::len_utf8`.
pub fn utf8_width_exec(c: char) -> (r: u8)
    ensures
        r as nat == utf8_width(c),
{
    let u = c as u32;
    if u < 0x80 {
        1
    } else if u < 0x800 {
        2
    } else if u < 0x10000 {
        3
    } else {
        4
    }
}

/// The largest `j <= k` such that the first `j` characters of `p` leave at
/// least three bytes of `p` after them.
pub open spec fn flush_count(p: Seq<char>, k: int) -> int
    decreases k,
{
    if k <= 0 {
        0
    } else if utf8_len(p.take(k)) + 3 <= utf8_len(p) {
        k
    } else {
        flush_count(p, k - 1)
    }
}

/// How many leading characters of `p` can be passed on: all but the last
/// three bytes, cut back to a character boundary (none while `p` holds
/// three bytes or fewer).
pub open spec fn flushable(p: Seq<char>) -> int {
    if utf8_len(p) > 3 {
        flush_count(p, p.len() as int)
    } else {
        0
    }
}

proof fn lemma_utf8_len_take(p: Seq<char>, k: int)
    requires
        0 < k <= p.len(),
    ensures
        utf8_len(p.take(k)) == utf8_len(p.take(k - 1)) + utf8_width(p[k - 1]),
{
    assert(p.take(k).drop_last() =~= p.take(k - 1));
}

proof fn lemma_flush_count_bounds(p: Seq<char>, k: int)
    requires
        k <= p.len(),
    ensures
        0 <= flush_count(p, k) <= if k < 0 { 0 } else { k },
    decreases k,
{
    if k > 0 {
        lemma_flush_count_bounds(p, k - 1);
    }
}

/// The number of leading characters of `v` that can be passed on.
pub fn flushable_exec(v: &[char]) -> (r: usize)
    ensures
        r as int == flushable(v@),
        r <= v@.len(),
{
    let mut total: u128 = 0;
    let mut i: usize = 0;
    while i < v.len()
        invariant
            i <= v@.len(),
            total as nat == utf8_len(v@.take(i as int)),
            total <= 4 * i,
            v@.len() == v.len(),
        decreases v.len() - i,
    {
        proof {
            lemma_utf8_len_take(v@, i + 1);
        }
        total = total + utf8_width_exec(v[i]) as u128;
        i = i + 1;
    }
    assert(v@.take(v@.len() as int) == v@);
    if total <= 3 {
        return 0;
    }
    let mut k: usize = v.len();
    let mut b: u128 = total;
    while k > 0 && b + 3 > total
        invariant
            k <= v@.len(),
            v@.len() == v.len(),
            b <= total,
            total <= 4 * v@.len(),
            b as nat == utf8_len(v@.take(k as int)),
            total as nat == utf8_len(v@),
            flush_count(v@, v@.len() as int) == flush_count(v@, k as int),
        decreases k,
    {
        proof {
            lemma_utf8_len_take(v@, k as int);
        }
        b = b - utf8_width_exec(v[k - 1]) as u128;
        k = k - 1;
    }
    proof {
        lemma_flush_count_bounds(v@, v@.len() as int);
    }
    k
}


/// Where the renderer stands in the text.
#[derive(Clone, Copy, PartialEq, Eq)]
pub enum StreamState {
    /// In prose.
    OutsideCode,
    /// After an opening fence, before the end of its language line.
    AwaitCodeLang,
    /// Inside a code block.
    InCode,
}

/// What the renderer passes on.
pub enum StreamEvent {
    /// Prose to print as it is.
    Text(String),
    /// A finished code block to highlight: its language tag and its code.
    Code { lang: String, code: String },
    /// A finished block that holds an image: its extension and its number
    /// (counted from 1 in the session's response).
    Image { ext: String, index: usize },
}

/// What the renderer passes on, over mathematical values.
pub enum EventModel {
    Text(Seq<char>),
    Code(Seq<char>, Seq<char>),
    Image(Seq<char>, nat),
}

/// The value of an event.
pub open spec fn event_model(e: StreamEvent) -> EventModel {
    match e {
        StreamEvent::Text(t) => EventModel::Text(t@),
        StreamEvent::Code { lang, code } => EventModel::Code(lang@, code@),
        StreamEvent::Image { ext, index } => EventModel::Image(ext@, index as nat),
    }
}

/// The values of a sequence of events.
pub open spec fn events_model(v: Seq<StreamEvent>) -> Seq<EventModel> {
    v.map_values(|e: StreamEvent| event_model(e))
}

/// The state of the renderer: where it stands, the text received but not
/// yet passed on, the language tag and code of the block being read, how
/// many images it has found, and the (extension, body) of each.
pub struct StreamModel {
    pub state: StreamState,
    pub pending: Seq<char>,
    pub lang: Seq<char>,
    pub code: Seq<char>,
    pub images: nat,
    pub captured: Seq<(Seq<char>, Seq<char>)>,
}

/// Prose as events: none when it is empty.
pub open spec fn text_events(t: Seq<char>) -> Seq<EventModel> {
    if t.len() == 0 {
        Seq::empty()
    } else {
        seq![EventModel::Text(t)]
    }
}

/// Process the pending text as far as it can be: the state after that and
/// the events passed on, in order.
pub open spec fn drain_model(st: StreamModel) -> (StreamModel, Seq<EventModel>)
    decreases st.pending.len(),
{
    let p = st.pending;
    match st.state {
        StreamState::OutsideCode => match find(p, "```"@) {
            Some(i) => {
                proof {
                    reveal_strlit("```");
                    crate::text::lemma_find_from(p, "```"@, 0);
                }
                let (s2, ev) = drain_model(
                    StreamModel { state: StreamState::AwaitCodeLang, pending: p.skip(i + 3), ..st },
                );
                (s2, text_events(p.take(i)) + ev)
            },
            None => {
                let k = flushable(p);
                (StreamModel { pending: p.skip(k), ..st }, text_events(p.take(k)))
            },
        },
        StreamState::AwaitCodeLang => match find(p, "\n"@) {
            Some(nl) => {
                proof {
                    reveal_strlit("\n");
                    crate::text::lemma_find_from(p, "\n"@, 0);
                }
                drain_model(
                    StreamModel {
                        state: StreamState::InCode,
                        lang: trim(p.take(nl)),
                        pending: p.skip(nl + 1),
                        ..st
                    },
                )
            },
            None => (st, Seq::empty()),
        },
        StreamState::InCode => match find(p, "```"@) {
            Some(i) => {
                proof {
                    reveal_strlit("```");
                    crate::text::lemma_find_from(p, "```"@, 0);
                }
                let code = st.code + p.take(i);
                let next = StreamModel {
                    state: StreamState::OutsideCode,
                    pending: p.skip(i + 3),
                    lang: Seq::empty(),
                    code: Seq::empty(),
                    ..st
                };
                match image_ext(st.lang) {
                    Some(ext) => {
                        let n = st.images + 1;
                        let (s2, ev) = drain_model(
                            StreamModel { images: n, captured: st.captured.push((ext, code)), ..next },
                        );
                        (s2, seq![EventModel::Image(ext, n)] + ev)
                    },
                    None => {
                        let (s2, ev) = drain_model(next);
                        (s2, seq![EventModel::Code(st.lang, code)] + ev)
                    },
                }
            },
            None => {
                let k = flushable(p);
                (StreamModel { code: st.code + p.take(k), pending: p.skip(k), ..st }, Seq::empty())
            },
        },
    }
}

/// Receive a piece of the response: the new state and the events passed on.
pub open spec fn feed_model(st: StreamModel, piece: Seq<char>) -> (StreamModel, Seq<EventModel>) {
    drain_model(StreamModel { pending: st.pending + piece, ..st })
}

/// The events that pass on what is left when the response ends: pending
/// prose as it is, or the unfinished code block.
pub open spec fn finish_model(st: StreamModel) -> Seq<EventModel> {
    match st.state {
        StreamState::InCode => seq![EventModel::Code(st.lang, st.code + st.pending)],
        _ => text_events(st.pending),
    }
}

/// The renderer's start: in prose, with nothing received.
pub open spec fn start_model() -> StreamModel {
    StreamModel {
        state: StreamState::OutsideCode,
        pending: Seq::empty(),
        lang: Seq::empty(),
        code: Seq::empty(),
        images: 0,
        captured: Seq::empty(),
    }
}

proof fn lemma_drain_images(st: StreamModel)
    ensures
        drain_model(st).0.images <= st.images + st.pending.len(),
        drain_model(st).0.images >= st.images,
    decreases st.pending.len(),
{
    let p = st.pending;
    match st.state {
        StreamState::OutsideCode => match find(p, "```"@) {
            Some(i) => {
                reveal_strlit("```");
                crate::text::lemma_find_from(p, "```"@, 0);
                lemma_drain_images(
                    StreamModel { state: StreamState::AwaitCodeLang, pending: p.skip(i + 3), ..st },
                );
            },
            None => {},
        },
        StreamState::AwaitCodeLang => match find(p, "\n"@) {
            Some(nl) => {
                reveal_strlit("\n");
                crate::text::lemma_find_from(p, "\n"@, 0);
                lemma_drain_images(
                    StreamModel {
                        state: StreamState::InCode,
                        lang: trim(p.take(nl)),
                        pending: p.skip(nl + 1),
                        ..st
                    },
                );
            },
            None => {},
        },
        StreamState::InCode => match find(p, "```"@) {
            Some(i) => {
                reveal_strlit("```");
                crate::text::lemma_find_from(p, "```"@, 0);
                let code = st.code + p.take(i);
                let next = StreamModel {
                    state: StreamState::OutsideCode,
                    pending: p.skip(i + 3),
                    lang: Seq::empty(),
                    code: Seq::empty(),
                    ..st
                };
                match image_ext(st.lang) {
                    Some(ext) => {
                        lemma_drain_images(
                            StreamModel {
                                images: st.images + 1,
                                captured: st.captured.push((ext, code)),
                                ..next
                            },
                        );
                    },
                    None => {
                        lemma_drain_images(next);
                    },
                }
            },
            None => {},
        },
    }
}


/// The prose that events carry, in order.
pub open spec fn prose(ev: Seq<EventModel>) -> Seq<char>
    decreases ev.len(),
{
    if ev.len() == 0 {
        Seq::empty()
    } else {
        prose(ev.drop_last()) + match ev.last() {
            EventModel::Text(t) => t,
            _ => Seq::empty(),
        }
    }
}

proof fn lemma_no_match_suffix(s: Seq<char>, f: Seq<char>, k: int)
    requires
        0 <= k <= s.len(),
        find(s, f) is None,
    ensures
        find(s.skip(k), f) is None,
{
    crate::text::lemma_find_from(s, f, 0);
    crate::text::lemma_find_from(s.skip(k), f, 0);
    if find(s.skip(k), f) is Some {
        let j = find(s.skip(k), f)->0;
        assert(s.skip(k).subrange(j, j + f.len()) =~= s.subrange(j + k, j + k + f.len()));
        assert(crate::text::matches_at(s, f, j + k));
    }
}

/// In prose without fences nothing is lost or reordered: what a piece
/// passes on, followed by what is still held back, is what was held back
/// before followed by the piece; and the renderer stays in prose.
pub proof fn law_prose_passes_through(st: StreamModel, piece: Seq<char>)
    requires
        st.state == StreamState::OutsideCode,
        find(st.pending + piece, "```"@) is None,
    ensures
        ({
            let (s2, ev) = feed_model(st, piece);
            &&& s2.state == StreamState::OutsideCode
            &&& prose(ev) + s2.pending == st.pending + piece
            &&& find(s2.pending, "```"@) is None
        }),
{
    let p = st.pending + piece;
    let k = flushable(p);
    lemma_flush_count_bounds(p, p.len() as int);
    lemma_no_match_suffix(p, "```"@, k);
    lemma_prose_text(p.take(k));
    assert(p.take(k) + p.skip(k) =~= p);
}

/// At the end of a response in prose, the held-back text is passed on.
pub proof fn law_finish_flushes_prose(st: StreamModel)
    requires
        st.state == StreamState::OutsideCode,
    ensures
        prose(finish_model(st)) == st.pending,
{
    lemma_prose_text(st.pending);
}

proof fn lemma_prose_text(t: Seq<char>)
    ensures
        prose(text_events(t)) == t,
{
    let ev = text_events(t);
    if t.len() > 0 {
        assert(ev.drop_last() =~= Seq::<EventModel>::empty());
        assert(prose(ev.drop_last()) == Seq::<char>::empty());
        assert(ev.last() == EventModel::Text(t));
        assert(Seq::<char>::empty() + t =~= t);
    } else {
        assert(t =~= Seq::<char>::empty());
    }
}

/// The chat renderer's state while a response streams in.
pub struct StreamRenderer {
    state: StreamState,
    pending: Vec<char>,
    lang: Vec<char>,
    code: Vec<char>,
    images: usize,
    captured: Vec<(String, String)>,
}

impl View for StreamRenderer {
    type V = StreamModel;

    closed spec fn view(&self) -> StreamModel {
        StreamModel {
            state: self.state,
            pending: self.pending@,
            lang: self.lang@,
            code: self.code@,
            images: self.images as nat,
            captured: crate::chat::string_pairs_view(self.captured@),
        }
    }
}

fn text_event_push(events: &mut Vec<StreamEvent>, t: &[char])
    ensures
        events_model(final(events)@) == events_model(old(events)@) + text_events(t@),
{
    let ghost old_ev = old(events)@;
    if t.len() > 0 {
        events.push(StreamEvent::Text(string_of(t)));
        assert(events_model(events@) =~= events_model(old_ev) + text_events(t@));
    } else {
        assert(events_model(events@) =~= events_model(old_ev) + text_events(t@));
    }
}

impl StreamRenderer {
    /// A renderer at the start of a response.
    pub fn new() -> (r: StreamRenderer)
        ensures
            r@ == start_model(),
    {
        let r = StreamRenderer {
            state: StreamState::OutsideCode,
            pending: Vec::new(),
            lang: Vec::new(),
            code: Vec::new(),
            images: 0,
            captured: Vec::new(),
        };
        assert(r@.captured =~= Seq::empty());
        r
    }

    /// How many images have been found so far.
    pub fn image_count(&self) -> (r: usize)
        ensures
            r == self@.images,
    {
        self.images
    }

    /// How many characters are held back.
    pub fn pending_len(&self) -> (r: usize)
        ensures
            r == self@.pending.len(),
    {
        self.pending.len()
    }

    /// The (extension, body) of each image block found so far.
    pub fn captured_blocks(&self) -> (r: Vec<(String, String)>)
        ensures
            crate::chat::string_pairs_view(r@) == self@.captured,
    {
        let mut out: Vec<(String, String)> = Vec::new();
        let mut i: usize = 0;
        while i < self.captured.len()
            invariant
                i <= self.captured@.len(),
                out@.len() == i,
                crate::chat::string_pairs_view(out@) == crate::chat::string_pairs_view(
                    self.captured@,
                ).take(i as int),
            decreases self.captured.len() - i,
        {
            let a = string_of(&chars_of(self.captured[i].0.as_str()));
            let b = string_of(&chars_of(self.captured[i].1.as_str()));
            out.push((a, b));
            i = i + 1;
            assert(crate::chat::string_pairs_view(out@) =~= crate::chat::string_pairs_view(
                self.captured@,
            ).take(i as int));
        }
        assert(crate::chat::string_pairs_view(self.captured@).take(self.captured@.len() as int)
            =~= crate::chat::string_pairs_view(self.captured@));
        out
    }

    /// Receive the next piece of the response and pass on what can be.
    pub fn feed(&mut self, piece: &str) -> (r: Vec<StreamEvent>)
        requires
            old(self)@.images + old(self)@.pending.len() + piece@.len() <= usize::MAX,
        ensures
            (final(self)@, events_model(r@)) == feed_model(old(self)@, piece@),
    {
        let ghost st0 = StreamModel { pending: old(self)@.pending + piece@, ..old(self)@ };
        let pc = chars_of(piece);
        let mut i: usize = 0;
        while i < pc.len()
            invariant
                i <= pc@.len(),
                pc@ == piece@,
                self@ == (StreamModel {
                    pending: old(self)@.pending + piece@.take(i as int),
                    ..old(self)@
                }),
            decreases pc.len() - i,
        {
            self.pending.push(pc[i]);
            i = i + 1;
            assert(self.pending@ =~= old(self)@.pending + piece@.take(i as int));
        }
        assert(piece@.take(pc@.len() as int) == piece@);
        let fence = chars_of("```");
        let newline = chars_of("\n");
        let mut events: Vec<StreamEvent> = Vec::new();
        proof {
            lemma_drain_images(st0);
        }
        loop
            invariant
                fence@ == "```"@,
                newline@ == "\n"@,
                st0 == (StreamModel { pending: old(self)@.pending + piece@, ..old(self)@ }),
                self@.images + self@.pending.len() <= usize::MAX,
                drain_model(st0) == (drain_model(self@).0, events_model(events@) + drain_model(self@).1),
            decreases self@.pending.len(),
        {
            proof {
                reveal_strlit("```");
                reveal_strlit("\n");
            }
            let ghost cur = self@;
            let ghost old_ev = events@;
            match self.state {
                StreamState::OutsideCode => {
                    proof {
                        crate::text::lemma_find_from(cur.pending, fence@, 0);
                    }
                    match find_from_exec(&self.pending, &fence, 0) {
                        Some(idx) => {
                            assert(self.pending@.len() == self.pending.len());
                            let before = slice_chars(&self.pending, 0, idx);
                            let rest = slice_chars(&self.pending, idx + 3, self.pending.len());
                            text_event_push(&mut events, &before);
                            self.pending = rest;
                            self.state = StreamState::AwaitCodeLang;
                            assert(before@ =~= cur.pending.take(idx as int));
                            assert(rest@ =~= cur.pending.skip(idx + 3));
                            assert(events_model(events@) + drain_model(self@).1 =~= events_model(
                                old_ev,
                            ) + (text_events(cur.pending.take(idx as int)) + drain_model(self@).1));
                        },
                        None => {
                            let k = flushable_exec(&self.pending);
                            let before = slice_chars(&self.pending, 0, k);
                            let rest = slice_chars(&self.pending, k, self.pending.len());
                            text_event_push(&mut events, &before);
                            self.pending = rest;
                            assert(before@ =~= cur.pending.take(k as int));
                            assert(rest@ =~= cur.pending.skip(k as int));
                            assert(drain_model(cur) == (self@, text_events(
                                cur.pending.take(k as int),
                            )));
                            assert(events_model(events@) =~= events_model(old_ev) + drain_model(
                                cur,
                            ).1);
                            assert(drain_model(st0).0 == self@);
                            assert(drain_model(st0).1 == events_model(events@));
                            return events;
                        },
                    }
                },
                StreamState::AwaitCodeLang => {
                    proof {
                        crate::text::lemma_find_from(cur.pending, newline@, 0);
                    }
                    match find_from_exec(&self.pending, &newline, 0) {
                        Some(nl) => {
                            assert(self.pending@.len() == self.pending.len());
                            let lang = trim_chars(&slice_chars(&self.pending, 0, nl));
                            let rest = slice_chars(&self.pending, nl + 1, self.pending.len());
                            assert(rest@ =~= cur.pending.skip(nl + 1));
                            self.lang = lang;
                            self.pending = rest;
                            self.state = StreamState::InCode;
                            assert(self@ == (StreamModel {
                                state: StreamState::InCode,
                                lang: trim(cur.pending.take(nl as int)),
                                pending: cur.pending.skip(nl + 1),
                                ..cur
                            }));
                        },
                        None => {
                            assert(drain_model(cur) == (self@, Seq::<EventModel>::empty()));
                            assert(events_model(events@) =~= events_model(old_ev) + drain_model(
                                cur,
                            ).1);
                            return events;
                        },
                    }
                },
                StreamState::InCode => {
                    proof {
                        crate::text::lemma_find_from(cur.pending, fence@, 0);
                    }
                    match find_from_exec(&self.pending, &fence, 0) {
                        Some(idx) => {
                            assert(self.pending@.len() == self.pending.len());
                            let body = crate::text::concat_chars(
                                &self.code,
                                &slice_chars(&self.pending, 0, idx),
                            );
                            let rest = slice_chars(&self.pending, idx + 3, self.pending.len());
                            assert(body@ =~= cur.code + cur.pending.take(idx as int));
                            assert(rest@ =~= cur.pending.skip(idx + 3));
                            let lang_s = string_of(&self.lang);
                            match crate::chat::image_ext_from_lang(lang_s.as_str()) {
                                Some(ext) => {
                                    let n = self.images + 1;
                                    let ghost old_cap = self.captured@;
                                    self.captured.push((ext.to_owned(), string_of(&body)));
                                    assert(crate::chat::string_pairs_view(self.captured@)
                                        =~= crate::chat::string_pairs_view(old_cap).push(
                                        (ext@, body@),
                                    ));
                                    events.push(StreamEvent::Image { ext: ext.to_owned(), index: n });
                                    self.images = n;
                                    self.pending = rest;
                                    self.lang = Vec::new();
                                    self.code = Vec::new();
                                    self.state = StreamState::OutsideCode;
                                    assert(events_model(events@) =~= events_model(old_ev).push(
                                        EventModel::Image(ext@, n as nat),
                                    ));
                                    assert(events_model(events@) + drain_model(self@).1
                                        =~= events_model(old_ev) + (seq![
                                        EventModel::Image(ext@, n as nat),
                                    ] + drain_model(self@).1));
                                },
                                None => {
                                    let ghost lang_v = self.lang@;
                                    events.push(
                                        StreamEvent::Code { lang: lang_s, code: string_of(&body) },
                                    );
                                    self.pending = rest;
                                    self.lang = Vec::new();
                                    self.code = Vec::new();
                                    self.state = StreamState::OutsideCode;
                                    assert(events_model(events@) =~= events_model(old_ev).push(
                                        EventModel::Code(lang_v, body@),
                                    ));
                                    assert(events_model(events@) + drain_model(self@).1
                                        =~= events_model(old_ev) + (seq![
                                        EventModel::Code(lang_v, body@),
                                    ] + drain_model(self@).1));
                                },
                            }
                        },
                        None => {
                            let k = flushable_exec(&self.pending);
                            let body = crate::text::concat_chars(
                                &self.code,
                                &slice_chars(&self.pending, 0, k),
                            );
                            let rest = slice_chars(&self.pending, k, self.pending.len());
                            assert(body@ =~= cur.code + cur.pending.take(k as int));
                            assert(rest@ =~= cur.pending.skip(k as int));
                            self.code = body;
                            self.pending = rest;
                            assert(drain_model(cur) == (self@, Seq::<EventModel>::empty()));
                            assert(events_model(events@) =~= events_model(old_ev) + drain_model(
                                cur,
                            ).1);
                            return events;
                        },
                    }
                },
            }
        }
    }

    /// Pass on what is left at the end of the response.
    pub fn finish(&self) -> (r: Vec<StreamEvent>)
        ensures
            events_model(r@) == finish_model(self@),
    {
        let mut events: Vec<StreamEvent> = Vec::new();
        match self.state {
            StreamState::InCode => {
                let body = crate::text::concat_chars(&self.code, &self.pending);
                events.push(StreamEvent::Code { lang: string_of(&self.lang), code: string_of(&body) });
                assert(events_model(events@) =~= finish_model(self@));
            },
            _ => {
                text_event_push(&mut events, &self.pending);
                assert(events_model(events@) =~= finish_model(self@));
            },
        }
        events
    }
}

} // verus!
