//! The user profile that the assistant learns from conversations: a table
//! of key/value facts (languages, skill level, topics, remembered facts,
//! number of turns), what one message teaches, and the summary of the
//! profile that personalises the system prompt.
use vstd::prelude::*;
use crate::text::{
    chars_of, concat_chars, contains, contains_exec, eq_lit, join, join_exec, lowercase,
    lowercase_chars, slice_chars, split_exec, split_on, starts_with, starts_with_exec, string_of,
    trim, trim_chars,
};

verus! {

/// The keys of an entry list are distinct.
pub open spec fn keys_unique(l: Seq<(Seq<char>, Seq<char>)>) -> bool {
    forall|i: int, j: int| 0 <= i < j < l.len() ==> l[i].0 != l[j].0
}

/// Whether `k` is the key of an entry.
pub open spec fn has_key(l: Seq<(Seq<char>, Seq<char>)>, k: Seq<char>) -> bool {
    exists|i: int| 0 <= i < l.len() && l[i].0 == k
}

/// The table that an entry list stands for.
pub open spec fn to_map(l: Seq<(Seq<char>, Seq<char>)>) -> Map<Seq<char>, Seq<char>> {
    Map::new(
        |k: Seq<char>| has_key(l, k),
        |k: Seq<char>| l[choose|i: int| 0 <= i < l.len() && l[i].0 == k].1,
    )
}

proof fn lemma_to_map_at(l: Seq<(Seq<char>, Seq<char>)>, i: int)
    requires
        keys_unique(l),
        0 <= i < l.len(),
    ensures
        to_map(l).contains_key(l[i].0),
        to_map(l)[l[i].0] == l[i].1,
{
    let k = l[i].0;
    assert(has_key(l, k));
    let j = choose|j: int| 0 <= j < l.len() && l[j].0 == k;
    if j != i {
        if j < i {
            assert(l[j].0 != l[i].0);
        } else {
            assert(l[i].0 != l[j].0);
        }
    }
}

proof fn lemma_to_map_push(l: Seq<(Seq<char>, Seq<char>)>, k: Seq<char>, v: Seq<char>)
    requires
        keys_unique(l),
        !has_key(l, k),
    ensures
        keys_unique(l.push((k, v))),
        to_map(l.push((k, v))) == to_map(l).insert(k, v),
{
    let l2 = l.push((k, v));
    assert(keys_unique(l2));
    assert forall|key: Seq<char>| #[trigger] has_key(l2, key) == (has_key(l, key) || key == k) by {
        if has_key(l, key) {
            let i = choose|i: int| 0 <= i < l.len() && l[i].0 == key;
            assert(l2[i].0 == key);
        }
        if key == k {
            assert(l2[l.len() as int].0 == key);
        }
        if has_key(l2, key) && key != k {
            let i = choose|i: int| 0 <= i < l2.len() && l2[i].0 == key;
            assert(l[i].0 == key);
        }
    }
    assert forall|key: Seq<char>| #[trigger] to_map(l2).contains_key(key) implies to_map(l2)[key]
        == to_map(l).insert(k, v)[key] by {
        if key == k {
            lemma_to_map_at(l2, l.len() as int);
        } else {
            let i = choose|i: int| 0 <= i < l.len() && l[i].0 == key;
            lemma_to_map_at(l, i);
            lemma_to_map_at(l2, i);
        }
    }
    assert(to_map(l2) =~= to_map(l).insert(k, v));
}

proof fn lemma_to_map_update(l: Seq<(Seq<char>, Seq<char>)>, i: int, v: Seq<char>)
    requires
        keys_unique(l),
        0 <= i < l.len(),
    ensures
        keys_unique(l.update(i, (l[i].0, v))),
        to_map(l.update(i, (l[i].0, v))) == to_map(l).insert(l[i].0, v),
{
    let k = l[i].0;
    let l2 = l.update(i, (k, v));
    assert(keys_unique(l2));
    assert forall|key: Seq<char>| #[trigger] has_key(l2, key) == has_key(l, key) by {
        if has_key(l, key) {
            let j = choose|j: int| 0 <= j < l.len() && l[j].0 == key;
            assert(l2[j].0 == key);
        }
        if has_key(l2, key) {
            let j = choose|j: int| 0 <= j < l2.len() && l2[j].0 == key;
            assert(l[j].0 == key);
        }
    }
    assert(has_key(l, k)) by {
        assert(l[i].0 == k);
    }
    assert forall|key: Seq<char>| #[trigger] to_map(l2).contains_key(key) implies to_map(l2)[key]
        == to_map(l).insert(k, v)[key] by {
        let j = choose|j: int| 0 <= j < l.len() && l[j].0 == key;
        lemma_to_map_at(l, j);
        lemma_to_map_at(l2, j);
    }
    assert(to_map(l2) =~= to_map(l).insert(k, v));
}

proof fn lemma_to_map_remove(l: Seq<(Seq<char>, Seq<char>)>, i: int)
    requires
        keys_unique(l),
        0 <= i < l.len(),
    ensures
        keys_unique(l.remove(i)),
        to_map(l.remove(i)) == to_map(l).remove(l[i].0),
{
    let k = l[i].0;
    let l2 = l.remove(i);
    assert forall|a: int, b: int| 0 <= a < b < l2.len() implies l2[a].0 != l2[b].0 by {
        let a1 = if a < i { a } else { a + 1 };
        let b1 = if b < i { b } else { b + 1 };
        assert(l2[a] == l[a1] && l2[b] == l[b1]);
    }
    assert forall|key: Seq<char>| #[trigger] has_key(l2, key) == (has_key(l, key) && key != k) by {
        if has_key(l2, key) {
            let j = choose|j: int| 0 <= j < l2.len() && l2[j].0 == key;
            let j1 = if j < i { j } else { j + 1 };
            assert(l[j1].0 == key);
            if key == k {
                if j1 < i {
                    assert(l[j1].0 != l[i].0);
                } else {
                    assert(l[i].0 != l[j1].0);
                }
            }
        }
        if has_key(l, key) && key != k {
            let j = choose|j: int| 0 <= j < l.len() && l[j].0 == key;
            assert(j != i);
            let j2 = if j < i { j } else { j - 1 };
            assert(l2[j2].0 == key);
        }
    }
    assert forall|key: Seq<char>| #[trigger] to_map(l2).contains_key(key) implies to_map(l2)[key]
        == to_map(l).remove(k)[key] by {
        let j = choose|j: int| 0 <= j < l2.len() && l2[j].0 == key;
        let j1 = if j < i { j } else { j + 1 };
        lemma_to_map_at(l2, j);
        lemma_to_map_at(l, j1);
    }
    assert(to_map(l2) =~= to_map(l).remove(k));
}

/// The user profile: a table from keys to values.
pub struct Profile {
    entries: Vec<(String, String)>,
}

/// The characters of both strings of each entry.
pub open spec fn entries_view(v: Seq<(String, String)>) -> Seq<(Seq<char>, Seq<char>)> {
    v.map_values(|p: (String, String)| (p.0@, p.1@))
}

impl View for Profile {
    type V = Map<Seq<char>, Seq<char>>;

    closed spec fn view(&self) -> Map<Seq<char>, Seq<char>> {
        to_map(entries_view(self.entries@))
    }
}

/// The value stored under `key`, or the empty text when there is none.
pub open spec fn value_or_empty(p: Map<Seq<char>, Seq<char>>, key: Seq<char>) -> Seq<char> {
    if p.contains_key(key) {
        p[key]
    } else {
        Seq::empty()
    }
}

impl Profile {
    #[verifier::type_invariant]
    closed spec fn inv(&self) -> bool {
        keys_unique(entries_view(self.entries@))
    }

    /// An empty profile.
    pub fn new() -> (r: Profile)
        ensures
            r@ == Map::<Seq<char>, Seq<char>>::empty(),
    {
        let r = Profile { entries: Vec::new() };
        assert(r@ =~= Map::<Seq<char>, Seq<char>>::empty());
        r
    }

    /// The number of entries.
    pub fn profile_entry_count(&self) -> (r: usize)
        ensures
            self@.dom().finite(),
            r == self@.len(),
    {
        proof {
            use_type_invariant(self);
            lemma_map_len(entries_view(self.entries@));
        }
        self.entries.len()
    }

    fn index_of(&self, key: &str) -> (r: Option<usize>)
        ensures
            match r {
                Some(i) => i < self.entries@.len() && self.entries@[i as int].0@ == key@,
                None => !has_key(entries_view(self.entries@), key@),
            },
    {
        let mut i: usize = 0;
        while i < self.entries.len()
            invariant
                i <= self.entries@.len(),
                forall|k: int| 0 <= k < i ==> self.entries@[k].0@ != key@,
            decreases self.entries.len() - i,
        {
            if crate::text::chars_eq(&chars_of(self.entries[i].0.as_str()), &chars_of(key)) {
                return Some(i);
            }
            i = i + 1;
        }
        proof {
            if has_key(entries_view(self.entries@), key@) {
                let j = choose|j: int|
                    0 <= j < entries_view(self.entries@).len() && entries_view(self.entries@)[j].0
                        == key@;
                assert(self.entries@[j].0@ == key@);
            }
        }
        None
    }

    /// The value stored under `key`.
    pub fn get_profile_value(&self, key: &str) -> (r: Option<String>)
        ensures
            match r {
                Some(v) => self@.contains_key(key@) && self@[key@] == v@,
                None => !self@.contains_key(key@),
            },
    {
        proof {
            use_type_invariant(self);
        }
        match self.index_of(key) {
            Some(i) => {
                proof {
                    lemma_to_map_at(entries_view(self.entries@), i as int);
                }
                Some(string_of(&chars_of(self.entries[i].1.as_str())))
            },
            None => None,
        }
    }

    /// Store `value` under `key`, replacing what was there.
    pub fn upsert_profile(&mut self, key: &str, value: &str)
        ensures
            final(self)@ == old(self)@.insert(key@, value@),
    {
        proof {
            use_type_invariant(&*self);
        }
        let k = string_of(&chars_of(key));
        let v = string_of(&chars_of(value));
        let ghost l = entries_view(self.entries@);
        match self.index_of(key) {
            Some(i) => {
                proof {
                    lemma_to_map_update(l, i as int, value@);
                }
                let mut entries: Vec<(String, String)> = Vec::new();
                std::mem::swap(&mut entries, &mut self.entries);
                let ghost before = entries@;
                entries.set(i, (k, v));
                assert(entries_view(entries@) =~= l.update(i as int, (l[i as int].0, value@)));
                self.entries = entries;
            },
            None => {
                proof {
                    lemma_to_map_push(l, key@, value@);
                }
                let mut entries: Vec<(String, String)> = Vec::new();
                std::mem::swap(&mut entries, &mut self.entries);
                entries.push((k, v));
                assert(entries_view(entries@) =~= l.push((key@, value@)));
                self.entries = entries;
            },
        }
    }

    /// Remove what is stored under `key`.
    pub fn remove_profile_value(&mut self, key: &str)
        ensures
            final(self)@ == old(self)@.remove(key@),
    {
        proof {
            use_type_invariant(&*self);
        }
        let ghost l = entries_view(self.entries@);
        match self.index_of(key) {
            Some(i) => {
                proof {
                    lemma_to_map_remove(l, i as int);
                }
                let mut entries: Vec<(String, String)> = Vec::new();
                std::mem::swap(&mut entries, &mut self.entries);
                entries.remove(i);
                assert(entries_view(entries@) =~= l.remove(i as int));
                self.entries = entries;
            },
            None => {
                assert(to_map(l) =~= to_map(l).remove(key@));
            },
        }
    }

    /// Remove every entry.
    pub fn clear_profile(&mut self)
        ensures
            final(self)@ == Map::<Seq<char>, Seq<char>>::empty(),
    {
        self.entries = Vec::new();
        assert(self@ =~= Map::<Seq<char>, Seq<char>>::empty());
    }

    /// The entries, as (key, value) rows, in the order they are kept.
    pub fn entries(&self) -> (r: Vec<(String, String)>)
        ensures
            keys_unique(entries_view(r@)),
            to_map(entries_view(r@)) == self@,
    {
        proof {
            use_type_invariant(self);
        }
        let mut out: Vec<(String, String)> = Vec::new();
        let mut i: usize = 0;
        while i < self.entries.len()
            invariant
                i <= self.entries@.len(),
                out@.len() == i,
                entries_view(out@) == entries_view(self.entries@).take(i as int),
            decreases self.entries.len() - i,
        {
            let k = string_of(&chars_of(self.entries[i].0.as_str()));
            let v = string_of(&chars_of(self.entries[i].1.as_str()));
            let ghost before = out@;
            out.push((k, v));
            i = i + 1;
            assert forall|j: int| 0 <= j < i implies entries_view(out@)[j] == entries_view(
                self.entries@,
            ).take(i as int)[j] by {
                if j < i - 1 {
                    assert(out@[j] == before[j]);
                    assert(entries_view(before)[j] == entries_view(self.entries@).take(
                        i - 1,
                    )[j]);
                }
            }
            assert(entries_view(out@) =~= entries_view(self.entries@).take(i as int));
        }
        assert(entries_view(self.entries@).take(self.entries@.len() as int) =~= entries_view(
            self.entries@,
        ));
        out
    }
}

proof fn lemma_map_len(l: Seq<(Seq<char>, Seq<char>)>)
    requires
        keys_unique(l),
    ensures
        to_map(l).dom().finite(),
        to_map(l).len() == l.len(),
    decreases l.len(),
{
    if l.len() == 0 {
        assert(to_map(l).dom() =~= Set::<Seq<char>>::empty());
    } else {
        let l0 = l.drop_last();
        assert(keys_unique(l0));
        lemma_map_len(l0);
        assert(!has_key(l0, l.last().0)) by {
            if has_key(l0, l.last().0) {
                let j = choose|j: int| 0 <= j < l0.len() && l0[j].0 == l.last().0;
                assert(l[j].0 != l[l.len() - 1].0);
            }
        }
        lemma_to_map_push(l0, l.last().0, l.last().1);
        assert(l0.push(l.last()) =~= l);
    }
}


/// Patterns that name a programming language (looked for in the padded,
/// lower-cased message) and the name stored for it.
pub open spec fn lang_patterns() -> Seq<(Seq<char>, Seq<char>)> {
    seq![
        ("rust"@, "rust"@),
        ("python"@, "python"@),
        ("golang"@, "go"@),
        (" go "@, "go"@),
        ("javascript"@, "javascript"@),
        (" js "@, "javascript"@),
        ("typescript"@, "typescript"@),
        (" ts "@, "typescript"@),
        ("c++"@, "c++"@),
        ("java"@, "java"@),
        ("ruby"@, "ruby"@),
        ("swift"@, "swift"@),
        ("kotlin"@, "kotlin"@),
        ("c#"@, "c#"@),
        ("csharp"@, "c#"@),
        ("php"@, "php"@),
        ("scala"@, "scala"@),
        ("haskell"@, "haskell"@),
        ("erlang"@, "erlang"@),
        ("elixir"@, "elixir"@),
        ("lua"@, "lua"@),
        ("bash"@, "bash"@),
        ("shell script"@, "shell"@),
    ]
}

/// Patterns that name a topic of interest and the name stored for it.
pub open spec fn topic_patterns() -> Seq<(Seq<char>, Seq<char>)> {
    seq![
        ("web development"@, "web"@),
        ("web app"@, "web"@),
        ("frontend"@, "frontend"@),
        ("backend"@, "backend"@),
        ("machine learning"@, "ml"@),
        (" ml "@, "ml"@),
        ("deep learning"@, "ml"@),
        ("devops"@, "devops"@),
        ("embedded"@, "embedded"@),
        (" cli "@, "cli"@),
        ("command line"@, "cli"@),
        ("systems programming"@, "systems"@),
        ("database"@, "database"@),
        (" api "@, "api"@),
        ("rest api"@, "api"@),
        ("mobile app"@, "mobile"@),
        ("game dev"@, "game development"@),
        ("cloud"@, "cloud"@),
    ]
}

/// Phrases of a beginner.
pub open spec fn beginner_signals() -> Seq<Seq<char>> {
    seq![
        "i'm new to"@,
        "im new to"@,
        "how do i"@,
        "i'm learning"@,
        "im learning"@,
        "newbie"@,
        "beginner"@,
        "just started"@,
    ]
}

/// Phrases of an expert.
pub open spec fn expert_signals() -> Seq<Seq<char>> {
    seq![
        "i've built"@,
        "ive built"@,
        "in production"@,
        "years of experience"@,
        "senior engineer"@,
        "i've been using"@,
        "ive been using"@,
        "at scale"@,
    ]
}

/// Phrases of someone with a project under way.
pub open spec fn project_signals() -> Seq<Seq<char>> {
    seq![
        "my project"@,
        "i'm building"@,
        "im building"@,
        "working on"@,
        "i'm working on"@,
        "im working on"@,
    ]
}

/// Openings of a self-introduction.
pub open spec fn intro_patterns() -> Seq<Seq<char>> {
    seq![
        "my name is "@,
        "i am "@,
        "i'm "@,
        "call me "@,
        "everyone calls me "@,
        "i live in "@,
        "i'm from "@,
        "im from "@,
        "my favorite "@,
        "i like "@,
        "i love "@,
        "i hate "@,
        "i don't like "@,
        "dont like "@,
        "my hobby is "@,
        "my work is "@,
        "i work at "@,
        "i work as "@,
    ]
}

/// Openings that ask the assistant to remember what follows, most specific first.
pub open spec fn remember_triggers() -> Seq<Seq<char>> {
    seq![
        "please remember that "@,
        "please remember my "@,
        "please remember i "@,
        "please remember "@,
        "remember that "@,
        "remember my "@,
        "remember i "@,
        "remember: "@,
        "remember "@,
        "don't forget that "@,
        "don't forget "@,
        "dont forget that "@,
        "dont forget "@,
    ]
}

/// The message as patterns are looked for in it: trimmed, lower-cased, and
/// with a space on each side so that a word can match at either end.
pub open spec fn padded_lower(msg: Seq<char>) -> Seq<char> {
    " "@ + lowercase(trim(msg)) + " "@
}

/// The names of the first `n` patterns found in `lower`, each once, in
/// pattern order.
pub open spec fn found_names(pats: Seq<(Seq<char>, Seq<char>)>, lower: Seq<char>, n: int) -> Seq<
    Seq<char>,
>
    decreases n,
{
    if n <= 0 {
        Seq::empty()
    } else {
        let prev = found_names(pats, lower, n - 1);
        if contains(lower, pats[n - 1].0) && !prev.contains(pats[n - 1].1) {
            prev.push(pats[n - 1].1)
        } else {
            prev
        }
    }
}

/// `set` followed by the names of `found` that it does not hold yet.
pub open spec fn add_missing(set: Seq<Seq<char>>, found: Seq<Seq<char>>) -> Seq<Seq<char>>
    decreases found.len(),
{
    if found.len() == 0 {
        set
    } else {
        let s = add_missing(set, found.drop_last());
        if s.contains(found.last()) {
            s
        } else {
            s.push(found.last())
        }
    }
}

/// The trimmed items of a comma-separated list (none for an empty text).
pub open spec fn list_items(existing: Seq<char>) -> Seq<Seq<char>> {
    if existing.len() == 0 {
        Seq::empty()
    } else {
        split_on(existing, ',').map_values(|x: Seq<char>| trim(x))
    }
}

/// A stored comma-separated list with the names of `found` added.
pub open spec fn merged_list(existing: Seq<char>, found: Seq<Seq<char>>) -> Seq<char> {
    join(add_missing(list_items(existing), found), ","@)
}

/// Whether `lower` holds one of the phrases.
pub open spec fn any_signal(lower: Seq<char>, sigs: Seq<Seq<char>>) -> bool {
    exists|i: int| 0 <= i < sigs.len() && contains(lower, sigs[i])
}

/// The first trigger from index `i` on that `s` starts with.
pub open spec fn first_trigger(s: Seq<char>, trigs: Seq<Seq<char>>, i: int) -> Option<int>
    decreases trigs.len() - i,
{
    if i < 0 || i >= trigs.len() {
        None
    } else if starts_with(s, trigs[i]) {
        Some(i)
    } else {
        first_trigger(s, trigs, i + 1)
    }
}

/// `s` without its first `k` characters (empty when it has fewer).
pub open spec fn skip_upto(s: Seq<char>, k: int) -> Seq<char> {
    if k <= s.len() {
        s.skip(k)
    } else {
        Seq::empty()
    }
}

/// The fact that a message asks to remember, if it asks (it may be empty):
/// the trimmed rest of the trimmed message after the trigger.
pub open spec fn requested_fact(msg: Seq<char>) -> Option<Seq<char>> {
    match first_trigger(lowercase(trim(msg)), remember_triggers(), 0) {
        Some(i) => Some(trim(skip_upto(trim(msg), remember_triggers()[i].len() as int))),
        None => None,
    }
}

/// Whether a `|`-separated list of facts holds `fact`, compared trimmed and
/// lower-cased.
pub open spec fn already_remembered(existing: Seq<char>, fact: Seq<char>) -> bool {
    let parts = split_on(existing, '|');
    exists|i: int| 0 <= i < parts.len() && lowercase(trim(parts[i])) == lowercase(fact)
}

/// Whether SQLite passes over `c` before a number (its `sqlite3Isspace`).
pub open spec fn sql_space(c: char) -> bool {
    c == ' ' || c == '\t' || c == '\n' || c == '\u{b}' || c == '\u{c}' || c == '\r'
}

/// The index of the first character of `s` from `i` on that is not such a
/// space.
pub open spec fn sql_spaces_end(s: Seq<char>, i: int) -> int
    decreases s.len() - i,
{
    if 0 <= i < s.len() && sql_space(s[i]) {
        sql_spaces_end(s, i + 1)
    } else {
        i
    }
}

/// The value of the decimal digits that `s` starts with, from index `i` on,
/// after the value `acc` of the digits before them.
pub open spec fn digits_prefix_value(s: Seq<char>, i: int, acc: nat) -> nat
    decreases s.len() - i,
{
    if i < 0 || i >= s.len() || !('0' <= s[i] <= '9') {
        acc
    } else {
        digits_prefix_value(s, i + 1, (acc * 10 + (s[i] as nat - '0' as nat)) as nat)
    }
}

/// What SQLite's `CAST(s AS INTEGER)` gives for the text `s`: leading spaces
/// are passed over, then an optional sign and the longest run of decimal
/// digits are read (0 when there are none); a value beyond the range of
/// `i64` is held at its nearest end.
pub open spec fn cast_integer(s: Seq<char>) -> int {
    let i = sql_spaces_end(s, 0);
    let neg = i < s.len() && s[i] == '-';
    let j = if i < s.len() && (s[i] == '-' || s[i] == '+') {
        i + 1
    } else {
        i
    };
    let v = digits_prefix_value(s, j, 0);
    if neg {
        if v > 0x8000_0000_0000_0000 {
            -0x8000_0000_0000_0000
        } else {
            -v
        }
    } else {
        if v > 0x7fff_ffff_ffff_ffff {
            0x7fff_ffff_ffff_ffff
        } else {
            v as int
        }
    }
}

/// `n` in decimal, with `-` in front when it is negative.
pub open spec fn signed_decimal(n: int) -> Seq<char> {
    if n < 0 {
        "-"@ + crate::text::digits((-n) as nat, 10)
    } else {
        crate::text::digits(n as nat, 10)
    }
}

/// The counter after one more, as SQLite's `CAST(CAST(value AS INTEGER) + 1
/// AS TEXT)` writes it: `1` when there is none yet, else its integer plus one
/// (held at `i64::MAX`).
pub open spec fn incremented(p: Map<Seq<char>, Seq<char>>, key: Seq<char>) -> Seq<char> {
    if p.contains_key(key) {
        let n = cast_integer(p[key]);
        signed_decimal(if n < 0x7fff_ffff_ffff_ffff { n + 1 } else { n })
    } else {
        "1"@
    }
}


/// How many of the first `n` introduction openings the padded message
/// shows: as a word group inside it, or at its start.
pub open spec fn intro_count(lower: Seq<char>, n: int) -> nat
    decreases n,
{
    if n <= 0 {
        0
    } else {
        let pat = intro_patterns()[n - 1];
        intro_count(lower, n - 1) + if contains(lower, " "@ + pat + " "@) || starts_with(
            trim(lower),
            pat,
        ) {
            1nat
        } else {
            0nat
        }
    }
}

/// A list with one update when `cond` holds.
pub open spec fn update_if(cond: bool, key: Seq<char>, value: Seq<char>) -> Seq<
    (Seq<char>, Seq<char>),
> {
    if cond {
        seq![(key, value)]
    } else {
        Seq::empty()
    }
}

/// The update of the languages mentioned, when the message names any.
pub open spec fn language_update(p: Map<Seq<char>, Seq<char>>, lower: Seq<char>) -> Seq<
    (Seq<char>, Seq<char>),
> {
    let langs = found_names(lang_patterns(), lower, 23);
    update_if(
        langs.len() > 0,
        "languages_mentioned"@,
        merged_list(value_or_empty(p, "languages_mentioned"@), langs),
    )
}

/// The update of the skill level: an expert phrase wins over a beginner one.
pub open spec fn skill_update(lower: Seq<char>) -> Seq<(Seq<char>, Seq<char>)> {
    if any_signal(lower, expert_signals()) {
        seq![("skill_level"@, "expert"@)]
    } else if any_signal(lower, beginner_signals()) {
        seq![("skill_level"@, "beginner"@)]
    } else {
        Seq::empty()
    }
}

/// The update of the topics of interest, when the message names any.
pub open spec fn topic_update(p: Map<Seq<char>, Seq<char>>, lower: Seq<char>) -> Seq<
    (Seq<char>, Seq<char>),
> {
    let topics = found_names(topic_patterns(), lower, 18);
    update_if(
        topics.len() > 0,
        "topics_of_interest"@,
        merged_list(value_or_empty(p, "topics_of_interest"@), topics),
    )
}

/// The update of the remembered facts, when the message asks to remember a
/// fact that is not stored yet.
pub open spec fn remember_update(p: Map<Seq<char>, Seq<char>>, msg: Seq<char>) -> Seq<
    (Seq<char>, Seq<char>),
> {
    match requested_fact(msg) {
        Some(fact) => {
            let existing = value_or_empty(p, "remembered_facts"@);
            update_if(
                fact.len() > 0 && !already_remembered(existing, fact),
                "remembered_facts"@,
                if existing.len() == 0 {
                    fact
                } else {
                    existing + "|"@ + fact
                },
            )
        },
        None => Seq::empty(),
    }
}

/// The profile updates that a message leads to, in the order they are
/// made: languages, skill level, topics, project flag, remembered facts,
/// and the turn counter. Each reads the profile as it was before the message.
pub open spec fn learn_updates(p: Map<Seq<char>, Seq<char>>, msg: Seq<char>) -> Seq<
    (Seq<char>, Seq<char>),
> {
    let lower = padded_lower(msg);
    language_update(p, lower) + skill_update(lower) + topic_update(p, lower) + update_if(
        any_signal(lower, project_signals()),
        "has_active_project"@,
        "true"@,
    ) + remember_update(p, msg) + seq![("total_turns"@, incremented(p, "total_turns"@))]
}

/// The texts that a message adds to semantic memory, in order: the answer to
/// a question the assistant asked, the message as a self-introduction (once
/// per opening it shows, when it is under 100 bytes), and a fact it asks to
/// remember.
pub open spec fn learn_semantic(msg: Seq<char>, prev: Option<Seq<char>>) -> Seq<Seq<char>> {
    let ut = trim(msg);
    let asked = match prev {
        Some(pv) => if contains(trim(pv), "?"@) {
            seq!["Aide asked: "@ + trim(pv) + "\nUser answered: "@ + ut]
        } else {
            Seq::empty()
        },
        None => Seq::empty(),
    };
    let intro = if crate::stream::utf8_len(ut) < 100 {
        Seq::new(intro_count(padded_lower(msg), 18), |i: int| "User identity/intro: "@ + ut)
    } else {
        Seq::empty()
    };
    let fact = match requested_fact(msg) {
        Some(f) => if f.len() > 0 {
            seq![f]
        } else {
            Seq::empty()
        },
        None => Seq::empty(),
    };
    asked + intro + fact
}

/// The profile after the updates, made in order.
pub open spec fn apply_updates(p: Map<Seq<char>, Seq<char>>, u: Seq<(Seq<char>, Seq<char>)>) -> Map<
    Seq<char>,
    Seq<char>,
>
    decreases u.len(),
{
    if u.len() == 0 {
        p
    } else {
        apply_updates(p, u.drop_last()).insert(u.last().0, u.last().1)
    }
}

fn pattern_table(names: &[(&str, &str)]) -> (r: Vec<(Vec<char>, Vec<char>)>)
    ensures
        r@.len() == names@.len(),
        forall|i: int|
            0 <= i < names@.len() ==> (#[trigger] r@[i]).0@ == names@[i].0@ && r@[i].1@
                == names@[i].1@,
{
    let mut r: Vec<(Vec<char>, Vec<char>)> = Vec::new();
    let mut i: usize = 0;
    while i < names.len()
        invariant
            i <= names@.len(),
            r@.len() == i,
            forall|k: int|
                0 <= k < i ==> (#[trigger] r@[k]).0@ == names@[k].0@ && r@[k].1@ == names@[k].1@,
        decreases names.len() - i,
    {
        let (a, b) = names[i];
        r.push((chars_of(a), chars_of(b)));
        i = i + 1;
    }
    r
}

fn phrase_table(names: &[&str]) -> (r: Vec<Vec<char>>)
    ensures
        r@.len() == names@.len(),
        forall|i: int| 0 <= i < names@.len() ==> (#[trigger] r@[i])@ == names@[i]@,
{
    let mut r: Vec<Vec<char>> = Vec::new();
    let mut i: usize = 0;
    while i < names.len()
        invariant
            i <= names@.len(),
            r@.len() == i,
            forall|k: int| 0 <= k < i ==> (#[trigger] r@[k])@ == names@[k]@,
        decreases names.len() - i,
    {
        r.push(chars_of(names[i]));
        i = i + 1;
    }
    r
}

/// The characters of each pair of an entry table.
pub open spec fn table_view(t: Seq<(Vec<char>, Vec<char>)>) -> Seq<(Seq<char>, Seq<char>)> {
    t.map_values(|p: (Vec<char>, Vec<char>)| (p.0@, p.1@))
}

/// The characters of each phrase of a table.
pub open spec fn phrases_view(t: Seq<Vec<char>>) -> Seq<Seq<char>> {
    t.map_values(|p: Vec<char>| p@)
}

fn lang_table() -> (r: Vec<(Vec<char>, Vec<char>)>)
    ensures
        table_view(r@) == lang_patterns(),
{
    let names = [
        ("rust", "rust"),
        ("python", "python"),
        ("golang", "go"),
        (" go ", "go"),
        ("javascript", "javascript"),
        (" js ", "javascript"),
        ("typescript", "typescript"),
        (" ts ", "typescript"),
        ("c++", "c++"),
        ("java", "java"),
        ("ruby", "ruby"),
        ("swift", "swift"),
        ("kotlin", "kotlin"),
        ("c#", "c#"),
        ("csharp", "c#"),
        ("php", "php"),
        ("scala", "scala"),
        ("haskell", "haskell"),
        ("erlang", "erlang"),
        ("elixir", "elixir"),
        ("lua", "lua"),
        ("bash", "bash"),
        ("shell script", "shell"),
    ];
    let r = pattern_table(&names);
    assert(table_view(r@) =~= lang_patterns());
    r
}


fn topic_table() -> (r: Vec<(Vec<char>, Vec<char>)>)
    ensures
        table_view(r@) == topic_patterns(),
{
    let names = [
        ("web development", "web"),
        ("web app", "web"),
        ("frontend", "frontend"),
        ("backend", "backend"),
        ("machine learning", "ml"),
        (" ml ", "ml"),
        ("deep learning", "ml"),
        ("devops", "devops"),
        ("embedded", "embedded"),
        (" cli ", "cli"),
        ("command line", "cli"),
        ("systems programming", "systems"),
        ("database", "database"),
        (" api ", "api"),
        ("rest api", "api"),
        ("mobile app", "mobile"),
        ("game dev", "game development"),
        ("cloud", "cloud"),
    ];
    let r = pattern_table(&names);
    assert(table_view(r@) =~= topic_patterns());
    r
}

fn beginner_table() -> (r: Vec<Vec<char>>)
    ensures
        phrases_view(r@) == beginner_signals(),
{
    let names = [
        "i'm new to",
        "im new to",
        "how do i",
        "i'm learning",
        "im learning",
        "newbie",
        "beginner",
        "just started",
    ];
    let r = phrase_table(&names);
    assert(phrases_view(r@) =~= beginner_signals());
    r
}

fn expert_table() -> (r: Vec<Vec<char>>)
    ensures
        phrases_view(r@) == expert_signals(),
{
    let names = [
        "i've built",
        "ive built",
        "in production",
        "years of experience",
        "senior engineer",
        "i've been using",
        "ive been using",
        "at scale",
    ];
    let r = phrase_table(&names);
    assert(phrases_view(r@) =~= expert_signals());
    r
}

fn project_table() -> (r: Vec<Vec<char>>)
    ensures
        phrases_view(r@) == project_signals(),
{
    let names = [
        "my project",
        "i'm building",
        "im building",
        "working on",
        "i'm working on",
        "im working on",
    ];
    let r = phrase_table(&names);
    assert(phrases_view(r@) =~= project_signals());
    r
}

fn intro_table() -> (r: Vec<Vec<char>>)
    ensures
        phrases_view(r@) == intro_patterns(),
{
    let names = [
        "my name is ",
        "i am ",
        "i'm ",
        "call me ",
        "everyone calls me ",
        "i live in ",
        "i'm from ",
        "im from ",
        "my favorite ",
        "i like ",
        "i love ",
        "i hate ",
        "i don't like ",
        "dont like ",
        "my hobby is ",
        "my work is ",
        "i work at ",
        "i work as ",
    ];
    let r = phrase_table(&names);
    assert(phrases_view(r@) =~= intro_patterns());
    r
}

fn remember_table() -> (r: Vec<Vec<char>>)
    ensures
        phrases_view(r@) == remember_triggers(),
{
    let names = [
        "please remember that ",
        "please remember my ",
        "please remember i ",
        "please remember ",
        "remember that ",
        "remember my ",
        "remember i ",
        "remember: ",
        "remember ",
        "don't forget that ",
        "don't forget ",
        "dont forget that ",
        "dont forget ",
    ];
    let r = phrase_table(&names);
    assert(phrases_view(r@) =~= remember_triggers());
    r
}

fn seq_contains_exec(set: &Vec<Vec<char>>, x: &[char]) -> (b: bool)
    ensures
        b == phrases_view(set@).contains(x@),
{
    let mut i: usize = 0;
    while i < set.len()
        invariant
            i <= set@.len(),
            forall|k: int| 0 <= k < i ==> set@[k]@ != x@,
        decreases set.len() - i,
    {
        if crate::text::chars_eq(&set[i], x) {
            assert(phrases_view(set@)[i as int] == x@);
            return true;
        }
        i = i + 1;
    }
    proof {
        if phrases_view(set@).contains(x@) {
            let k = choose|k: int| 0 <= k < phrases_view(set@).len() && phrases_view(set@)[k] == x@;
            assert(set@[k]@ == x@);
        }
    }
    false
}

fn clone_chars(v: &[char]) -> (r: Vec<char>)
    ensures
        r@ == v@,
{
    let r = slice_chars(v, 0, v.len());
    assert(v@.subrange(0, v@.len() as int) =~= v@);
    r
}

fn found_names_exec(pats: &Vec<(Vec<char>, Vec<char>)>, lower: &[char]) -> (r: Vec<Vec<char>>)
    ensures
        phrases_view(r@) == found_names(table_view(pats@), lower@, pats@.len() as int),
{
    let ghost tv = table_view(pats@);
    let mut found: Vec<Vec<char>> = Vec::new();
    let mut i: usize = 0;
    while i < pats.len()
        invariant
            i <= pats@.len(),
            tv == table_view(pats@),
            phrases_view(found@) == found_names(tv, lower@, i as int),
        decreases pats.len() - i,
    {
        assert(tv[i as int] == (pats@[i as int].0@, pats@[i as int].1@));
        if contains_exec(lower, &pats[i].0) && !seq_contains_exec(&found, &pats[i].1) {
            let ghost before = found@;
            found.push(clone_chars(&pats[i].1));
            assert(phrases_view(found@) =~= phrases_view(before).push(pats@[i as int].1@));
        }
        i = i + 1;
    }
    found
}

fn any_signal_exec(lower: &[char], sigs: &Vec<Vec<char>>) -> (b: bool)
    ensures
        b == any_signal(lower@, phrases_view(sigs@)),
{
    let mut i: usize = 0;
    while i < sigs.len()
        invariant
            i <= sigs@.len(),
            forall|k: int| 0 <= k < i ==> !contains(lower@, #[trigger] phrases_view(sigs@)[k]),
        decreases sigs.len() - i,
    {
        if contains_exec(lower, &sigs[i]) {
            assert(phrases_view(sigs@)[i as int] == sigs@[i as int]@);
            return true;
        }
        assert(phrases_view(sigs@)[i as int] == sigs@[i as int]@);
        i = i + 1;
    }
    false
}

fn first_trigger_exec(s: &[char], trigs: &Vec<Vec<char>>) -> (r: Option<usize>)
    ensures
        match r {
            Some(i) => first_trigger(s@, phrases_view(trigs@), 0) == Some(i as int) && i
                < trigs@.len(),
            None => first_trigger(s@, phrases_view(trigs@), 0) is None,
        },
{
    let ghost tv = phrases_view(trigs@);
    let mut i: usize = 0;
    while i < trigs.len()
        invariant
            i <= trigs@.len(),
            tv == phrases_view(trigs@),
            first_trigger(s@, tv, 0) == first_trigger(s@, tv, i as int),
        decreases trigs.len() - i,
    {
        assert(tv[i as int] == trigs@[i as int]@);
        if starts_with_exec(s, &trigs[i]) {
            return Some(i);
        }
        i = i + 1;
    }
    None
}

/// The trimmed items of a comma-separated list.
fn list_items_exec(existing: &[char]) -> (r: Vec<Vec<char>>)
    ensures
        phrases_view(r@) == list_items(existing@),
{
    if existing.len() == 0 {
        let r: Vec<Vec<char>> = Vec::new();
        assert(phrases_view(r@) =~= list_items(existing@));
        return r;
    }
    let parts = split_exec(existing, ',');
    let ghost pv = parts@.map_values(|x: Vec<char>| x@);
    let mut r: Vec<Vec<char>> = Vec::new();
    let mut i: usize = 0;
    while i < parts.len()
        invariant
            i <= parts@.len(),
            pv == parts@.map_values(|x: Vec<char>| x@),
            r@.len() == i,
            phrases_view(r@) == pv.take(i as int).map_values(|x: Seq<char>| trim(x)),
        decreases parts.len() - i,
    {
        let ghost before = r@;
        r.push(trim_chars(&parts[i]));
        i = i + 1;
        assert forall|k: int| 0 <= k < i implies phrases_view(r@)[k] == pv.take(
            i as int,
        ).map_values(|x: Seq<char>| trim(x))[k] by {
            if k < i - 1 {
                assert(r@[k] == before[k]);
                assert(phrases_view(before)[k] == pv.take(i - 1).map_values(
                    |x: Seq<char>| trim(x),
                )[k]);
            }
        }
        assert(phrases_view(r@) =~= pv.take(i as int).map_values(|x: Seq<char>| trim(x)));
    }
    assert(pv.take(parts@.len() as int) =~= pv);
    r
}

fn merged_list_exec(existing: &[char], found: &Vec<Vec<char>>) -> (r: Vec<char>)
    ensures
        r@ == merged_list(existing@, phrases_view(found@)),
{
    let ghost fv = phrases_view(found@);
    let mut set = list_items_exec(existing);
    let mut i: usize = 0;
    while i < found.len()
        invariant
            i <= found@.len(),
            fv == phrases_view(found@),
            phrases_view(set@) == add_missing(list_items(existing@), fv.take(i as int)),
        decreases found.len() - i,
    {
        assert(fv.take(i + 1).drop_last() =~= fv.take(i as int));
        assert(fv.take(i + 1).last() == found@[i as int]@);
        if !seq_contains_exec(&set, &found[i]) {
            let ghost before = set@;
            set.push(clone_chars(&found[i]));
            assert(phrases_view(set@) =~= phrases_view(before).push(found@[i as int]@));
        }
        i = i + 1;
    }
    assert(fv.take(found@.len() as int) =~= fv);
    join_exec(&set, &chars_of(","))
}


fn already_remembered_exec(existing: &[char], fact: &[char]) -> (b: bool)
    ensures
        b == already_remembered(existing@, fact@),
{
    let parts = split_exec(existing, '|');
    let ghost pv = parts@.map_values(|x: Vec<char>| x@);
    let fact_lower = lowercase_chars(fact);
    let mut i: usize = 0;
    while i < parts.len()
        invariant
            i <= parts@.len(),
            pv == parts@.map_values(|x: Vec<char>| x@),
            pv == split_on(existing@, '|'),
            fact_lower@ == lowercase(fact@),
            forall|k: int| 0 <= k < i ==> lowercase(trim(#[trigger] pv[k])) != lowercase(fact@),
        decreases parts.len() - i,
    {
        let item = lowercase_chars(&trim_chars(&parts[i]));
        assert(pv[i as int] == parts@[i as int]@);
        if crate::text::chars_eq(&item, &fact_lower) {
            return true;
        }
        i = i + 1;
    }
    false
}

fn cast_integer_exec(s: &[char]) -> (r: i64)
    ensures
        r as int == cast_integer(s@),
{
    let mut i: usize = 0;
    while i < s.len() && (s[i] == ' ' || s[i] == '\t' || s[i] == '\n' || s[i] == '\u{b}' || s[i]
        == '\u{c}' || s[i] == '\r')
        invariant
            i <= s@.len(),
            sql_spaces_end(s@, 0) == sql_spaces_end(s@, i as int),
        decreases s.len() - i,
    {
        i = i + 1;
    }
    let neg = i < s.len() && s[i] == '-';
    let mut j: usize = if i < s.len() && (s[i] == '-' || s[i] == '+') {
        i + 1
    } else {
        i
    };
    let cap: u64 = if neg {
        0x8000_0000_0000_0000
    } else {
        0x7fff_ffff_ffff_ffff
    };
    let ghost j0 = j as int;
    let ghost mut t: nat = 0;
    let mut acc: u64 = 0;
    while j < s.len() && '0' <= s[j] && s[j] <= '9'
        invariant
            j0 <= j <= s@.len(),
            cap <= 0x8000_0000_0000_0000,
            digits_prefix_value(s@, j0, 0) == digits_prefix_value(s@, j as int, t),
            acc as nat == if t > cap { cap as nat } else { t },
        decreases s.len() - j,
    {
        let d = (s[j] as u32 - '0' as u32) as u64;
        let next: u128 = acc as u128 * 10 + d as u128;
        proof {
            t = t * 10 + d as nat;
        }
        acc = if next > cap as u128 {
            cap
        } else {
            next as u64
        };
        j = j + 1;
    }
    if neg {
        if acc == 0x8000_0000_0000_0000 {
            i64::MIN
        } else {
            -(acc as i64)
        }
    } else {
        acc as i64
    }
}

fn signed_decimal_exec(n: i64) -> (r: Vec<char>)
    ensures
        r@ == signed_decimal(n as int),
{
    if n < 0 {
        let k: u64 = (0 - (n as i128)) as u64;
        proof {
            reveal_strlit("-");
        }
        concat_chars(&chars_of("-"), &crate::text::digits_exec(k, 10))
    } else {
        crate::text::digits_exec(n as u64, 10)
    }
}

fn incremented_exec(p: &Profile, key: &str) -> (r: Vec<char>)
    ensures
        r@ == incremented(p@, key@),
{
    match p.get_profile_value(key) {
        Some(v) => {
            let n = cast_integer_exec(&chars_of(v.as_str()));
            let m = if n < i64::MAX {
                n + 1
            } else {
                n
            };
            signed_decimal_exec(m)
        },
        None => chars_of("1"),
    }
}

fn intro_count_exec(lower: &[char], pats: &Vec<Vec<char>>) -> (r: usize)
    requires
        phrases_view(pats@) == intro_patterns(),
    ensures
        r == intro_count(lower@, 18),
{
    let tl = trim_chars(lower);
    let space = chars_of(" ");
    assert(intro_patterns().len() == 18);
    assert(phrases_view(pats@).len() == pats@.len());
    let mut n: usize = 0;
    let mut i: usize = 0;
    while i < pats.len()
        invariant
            i <= pats@.len(),
            pats@.len() == 18,
            phrases_view(pats@) == intro_patterns(),
            n <= i,
            n == intro_count(lower@, i as int),
            tl@ == trim(lower@),
            space@ == " "@,
        decreases pats.len() - i,
    {
        assert(intro_patterns()[i as int] == pats@[i as int]@);
        let padded = concat_chars(&concat_chars(&space, &pats[i]), &space);
        if contains_exec(lower, &padded) || starts_with_exec(&tl, &pats[i]) {
            n = n + 1;
        }
        i = i + 1;
    }
    n
}

/// The number of bytes of the UTF-8 encoding of `v`.
fn utf8_len_exec(v: &[char]) -> (r: u128)
    ensures
        r as nat == crate::stream::utf8_len(v@),
{
    let mut total: u128 = 0;
    let mut i: usize = 0;
    while i < v.len()
        invariant
            i <= v@.len(),
            v@.len() == v.len(),
            total as nat == crate::stream::utf8_len(v@.take(i as int)),
            total <= 4 * i,
        decreases v.len() - i,
    {
        assert(v@.take(i + 1).drop_last() =~= v@.take(i as int));
        total = total + crate::stream::utf8_width_exec(v[i]) as u128;
        i = i + 1;
    }
    assert(v@.take(v@.len() as int) =~= v@);
    total
}


/// What one message teaches: the profile updates made, in order, and the
/// texts to add to semantic memory.
pub struct LearnedFacts {
    pub updates: Vec<(String, String)>,
    pub semantic: Vec<String>,
}

/// The characters of an optional text.
pub open spec fn opt_view(o: Option<&str>) -> Option<Seq<char>> {
    match o {
        Some(s) => Some(s@),
        None => None,
    }
}

fn push_update(u: &mut Vec<(String, String)>, key: &str, value: &[char])
    ensures
        entries_view(final(u)@) == entries_view(old(u)@).push((key@, value@)),
{
    let ghost before = u@;
    u.push((key.to_owned(), string_of(value)));
    assert(entries_view(u@) =~= entries_view(before).push((key@, value@)));
}

fn push_text(v: &mut Vec<String>, t: &[char])
    ensures
        final(v)@.map_values(|s: String| s@) == old(v)@.map_values(|s: String| s@).push(t@),
{
    let ghost before = v@;
    v.push(string_of(t));
    assert(v@.map_values(|s: String| s@) =~= before.map_values(|s: String| s@).push(t@));
}

fn requested_fact_exec(ut: &[char], lt: &[char]) -> (r: Option<Vec<char>>)
    requires
        exists|m: Seq<char>| ut@ == trim(m) && lt@ == lowercase(trim(m)),
    ensures
        forall|m: Seq<char>|
            ut@ == trim(m) && lt@ == lowercase(trim(m)) ==> match r {
                Some(f) => requested_fact(m) == Some(f@),
                None => requested_fact(m) is None,
            },
{
    let triggers = remember_table();
    match first_trigger_exec(lt, &triggers) {
        Some(i) => {
            let k = triggers[i].len();
            let rest = if k <= ut.len() {
                slice_chars(ut, k, ut.len())
            } else {
                Vec::new()
            };
            assert(phrases_view(triggers@)[i as int] == triggers@[i as int]@);
            Some(trim_chars(&rest))
        },
        None => None,
    }
}

fn language_update_exec(p: &Profile, lower: &[char]) -> (r: Vec<(String, String)>)
    ensures
        entries_view(r@) == language_update(p@, lower@),
{
    let mut u: Vec<(String, String)> = Vec::new();
    let langs = found_names_exec(&lang_table(), lower);
    assert(lang_patterns().len() == 23);
    if langs.len() > 0 {
        let existing = p.value_or_empty_exec("languages_mentioned");
        push_update(&mut u, "languages_mentioned", &merged_list_exec(&existing, &langs));
    }
    assert(entries_view(u@) =~= language_update(p@, lower@));
    u
}

fn topic_update_exec(p: &Profile, lower: &[char]) -> (r: Vec<(String, String)>)
    ensures
        entries_view(r@) == topic_update(p@, lower@),
{
    let mut u: Vec<(String, String)> = Vec::new();
    let topics = found_names_exec(&topic_table(), lower);
    assert(topic_patterns().len() == 18);
    if topics.len() > 0 {
        let existing = p.value_or_empty_exec("topics_of_interest");
        push_update(&mut u, "topics_of_interest", &merged_list_exec(&existing, &topics));
    }
    assert(entries_view(u@) =~= topic_update(p@, lower@));
    u
}

fn skill_update_exec(lower: &[char]) -> (r: Vec<(String, String)>)
    ensures
        entries_view(r@) == skill_update(lower@),
{
    let mut u: Vec<(String, String)> = Vec::new();
    if any_signal_exec(lower, &expert_table()) {
        push_update(&mut u, "skill_level", &chars_of("expert"));
    } else if any_signal_exec(lower, &beginner_table()) {
        push_update(&mut u, "skill_level", &chars_of("beginner"));
    }
    assert(entries_view(u@) =~= skill_update(lower@));
    u
}

fn remember_update_exec(p: &Profile, fact: &Option<Vec<char>>, msg: Ghost<Seq<char>>) -> (r: Vec<
    (String, String),
>)
    requires
        match fact {
            Some(f) => requested_fact(msg@) == Some(f@),
            None => requested_fact(msg@) is None,
        },
    ensures
        entries_view(r@) == remember_update(p@, msg@),
{
    let mut u: Vec<(String, String)> = Vec::new();
    match fact {
        Some(f) => {
            if f.len() > 0 {
                let existing = p.value_or_empty_exec("remembered_facts");
                if !already_remembered_exec(&existing, f) {
                    let value = if existing.len() == 0 {
                        clone_chars(f)
                    } else {
                        concat_chars(&concat_chars(&existing, &chars_of("|")), f)
                    };
                    push_update(&mut u, "remembered_facts", &value);
                }
            }
        },
        None => {},
    }
    assert(entries_view(u@) =~= remember_update(p@, msg@));
    u
}

fn append_updates(u: &mut Vec<(String, String)>, more: Vec<(String, String)>)
    ensures
        entries_view(final(u)@) == entries_view(old(u)@) + entries_view(more@),
{
    let ghost before = u@;
    let ghost more_v = more@;
    let mut more = more;
    u.append(&mut more);
    assert(entries_view(u@) =~= entries_view(before) + entries_view(more_v));
}

fn plan_updates(
    p: &Profile,
    lower: &[char],
    fact: &Option<Vec<char>>,
    msg: Ghost<Seq<char>>,
) -> (r: Vec<(String, String)>)
    requires
        lower@ == padded_lower(msg@),
        match fact {
            Some(f) => requested_fact(msg@) == Some(f@),
            None => requested_fact(msg@) is None,
        },
    ensures
        entries_view(r@) == learn_updates(p@, msg@),
{
    let mut u = language_update_exec(p, lower);
    append_updates(&mut u, skill_update_exec(lower));
    append_updates(&mut u, topic_update_exec(p, lower));
    if any_signal_exec(lower, &project_table()) {
        push_update(&mut u, "has_active_project", &chars_of("true"));
    }
    assert(entries_view(u@) =~= language_update(p@, lower@) + skill_update(lower@) + topic_update(
        p@,
        lower@,
    ) + update_if(any_signal(lower@, project_signals()), "has_active_project"@, "true"@));
    append_updates(&mut u, remember_update_exec(p, fact, msg));
    let turns = incremented_exec(p, "total_turns");
    push_update(&mut u, "total_turns", &turns);
    assert(entries_view(u@) =~= learn_updates(p@, msg@));
    u
}

fn plan_semantic(
    ut: &[char],
    lower: &[char],
    fact: &Option<Vec<char>>,
    prev_assistant_msg: Option<&str>,
    msg: Ghost<Seq<char>>,
) -> (r: Vec<String>)
    requires
        ut@ == trim(msg@),
        lower@ == padded_lower(msg@),
        match fact {
            Some(f) => requested_fact(msg@) == Some(f@),
            None => requested_fact(msg@) is None,
        },
    ensures
        r@.map_values(|s: String| s@) == learn_semantic(msg@, opt_view(prev_assistant_msg)),
{
    let mut semantic: Vec<String> = Vec::new();
    match prev_assistant_msg {
        Some(prev) => {
            let pt = trim_chars(&chars_of(prev));
            if contains_exec(&pt, &chars_of("?")) {
                let t = concat_chars(&chars_of("Aide asked: "), &pt);
                let t = concat_chars(&t, &chars_of("\nUser answered: "));
                let t = concat_chars(&t, ut);
                push_text(&mut semantic, &t);
            }
        },
        None => {},
    }
    let ghost s1 = semantic@.map_values(|x: String| x@);
    let n = intro_count_exec(lower, &intro_table());
    if utf8_len_exec(ut) < 100 {
        let intro = concat_chars(&chars_of("User identity/intro: "), ut);
        let mut j: usize = 0;
        while j < n
            invariant
                j <= n,
                semantic@.map_values(|x: String| x@) == s1 + Seq::new(j as nat, |i: int| intro@),
            decreases n - j,
        {
            push_text(&mut semantic, &intro);
            j = j + 1;
            assert(semantic@.map_values(|x: String| x@) =~= s1 + Seq::new(
                j as nat,
                |i: int| intro@,
            ));
        }
    } else {
        assert(semantic@.map_values(|x: String| x@) =~= s1 + Seq::<Seq<char>>::empty());
    }
    match fact {
        Some(f) => {
            if f.len() > 0 {
                push_text(&mut semantic, f);
            }
        },
        None => {},
    }
    assert(semantic@.map_values(|x: String| x@) =~= learn_semantic(
        msg@,
        opt_view(prev_assistant_msg),
    ));
    semantic
}

impl Profile {
    fn value_or_empty_exec(&self, key: &str) -> (r: Vec<char>)
        ensures
            r@ == value_or_empty(self@, key@),
    {
        match self.get_profile_value(key) {
            Some(v) => chars_of(v.as_str()),
            None => Vec::new(),
        }
    }

    /// Learn from one user message (and the assistant's message before it,
    /// if any): update the profile and return what was learned.
    pub fn extract_and_learn(&mut self, user_message: &str, prev_assistant_msg: Option<&str>) -> (r:
        LearnedFacts)
        ensures
            entries_view(r.updates@) == learn_updates(old(self)@, user_message@),
            r.semantic@.map_values(|s: String| s@) == learn_semantic(
                user_message@,
                opt_view(prev_assistant_msg),
            ),
            final(self)@ == apply_updates(old(self)@, learn_updates(old(self)@, user_message@)),
    {
        let ghost p = self@;
        let ut = trim_chars(&chars_of(user_message));
        let lt = lowercase_chars(&ut);
        let space = chars_of(" ");
        let lower = concat_chars(&concat_chars(&space, &lt), &space);
        assert(lower@ == padded_lower(user_message@));
        let fact = requested_fact_exec(&ut, &lt);
        let updates = plan_updates(self, &lower, &fact, Ghost(user_message@));
        let semantic = plan_semantic(&ut, &lower, &fact, prev_assistant_msg, Ghost(user_message@));
        let mut i: usize = 0;
        while i < updates.len()
            invariant
                i <= updates@.len(),
                self@ == apply_updates(p, entries_view(updates@).take(i as int)),
            decreases updates.len() - i,
        {
            assert(entries_view(updates@).take(i + 1).drop_last() =~= entries_view(updates@).take(
                i as int,
            ));
            self.upsert_profile(updates[i].0.as_str(), updates[i].1.as_str());
            i = i + 1;
        }
        assert(entries_view(updates@).take(updates@.len() as int) =~= entries_view(updates@));
        LearnedFacts { updates, semantic }
    }
}


/// What `char::to_uppercase` gives for a character: its Unicode upper-case
/// mapping (one to three characters).
pub uninterp spec fn uppercase_of(c: char) -> Seq<char>;

/// `char::to_uppercase`, collected into a string.
#[verifier::external_body]
fn char_to_uppercase(c: char) -> (r: String)
    ensures
        r@ == uppercase_of(c),
{
    c.to_uppercase().collect::<String>()
}

/// `s` with its first character in upper case.
pub open spec fn capitalized(s: Seq<char>) -> Seq<char> {
    if s.len() == 0 {
        Seq::empty()
    } else {
        uppercase_of(s[0]) + s.drop_first()
    }
}

/// `s` with its first character in upper case.
pub fn capitalize(s: &str) -> (r: String)
    ensures
        r@ == capitalized(s@),
{
    let v = chars_of(s);
    if v.len() == 0 {
        return String::new();
    }
    let first = char_to_uppercase(v[0]);
    let rest = slice_chars(&v, 1, v.len());
    assert(rest@ =~= s@.drop_first());
    string_of(&concat_chars(&chars_of(first.as_str()), &rest))
}

/// The system prompt before anything is known of the user.
pub open spec fn base_prompt() -> Seq<char> {
    "You are Aide, a helpful assistant. When the user specifically asks you to create, generate, or produce an image, first describe what you're creating, then return a fenced code block with language 'image-prompt' containing a detailed, high-quality prompt for Stable Diffusion. Otherwise, chat normally and do not output image prompts. Do not output base64 data, and do not output Python or shell commands for image generation. IMPORTANT: If you don't know something about the user (like their name, preference, or context) and it's relevant to the conversation, feel free to ask them. You have long-term memory and will remember their answers for future sessions."@
}

/// One sentence when `cond` holds.
pub open spec fn sentence_if(cond: bool, s: Seq<char>) -> Seq<Seq<char>> {
    if cond {
        seq![s]
    } else {
        Seq::empty()
    }
}

/// The system prompt personalised with what the profile holds: the base
/// prompt, then one sentence for each of languages, skill level, topics,
/// number of conversations, active project and remembered facts that is
/// known, joined with spaces.
pub open spec fn profile_summary(p: Map<Seq<char>, Seq<char>>) -> Seq<char> {
    let languages = value_or_empty(p, "languages_mentioned"@);
    let skill = value_or_empty(p, "skill_level"@);
    let topics = value_or_empty(p, "topics_of_interest"@);
    let has_project = value_or_empty(p, "has_active_project"@);
    let total = value_or_empty(p, "total_turns"@);
    let remembered = value_or_empty(p, "remembered_facts"@);
    if languages.len() == 0 && skill.len() == 0 && topics.len() == 0 && total.len() == 0
        && remembered.len() == 0 {
        base_prompt()
    } else {
        join(
            seq![base_prompt()] + sentence_if(
                languages.len() > 0,
                "The user works with: "@ + join(
                    split_on(languages, ',').map_values(|l: Seq<char>| capitalized(trim(l))),
                    ", "@,
                ) + "."@,
            ) + sentence_if(
                skill.len() > 0,
                "Their experience level appears to be "@ + skill + "."@,
            ) + sentence_if(
                topics.len() > 0,
                "They are interested in: "@ + join(
                    split_on(topics, ',').map_values(|t: Seq<char>| trim(t)),
                    ", "@,
                ) + "."@,
            ) + sentence_if(
                total.len() > 0 && total != "0"@,
                "You have had "@ + total + " conversations together."@,
            ) + sentence_if(has_project == "true"@, "The user is actively building a project."@)
                + sentence_if(
                remembered.len() > 0,
                "The user has asked you to remember: "@ + join(
                    split_on(remembered, '|').map_values(|f: Seq<char>| trim(f)),
                    "; "@,
                ) + "."@,
            ),
            " "@,
        )
    }
}

fn map_trim(parts: &Vec<Vec<char>>, cap: bool) -> (r: Vec<Vec<char>>)
    ensures
        phrases_view(r@) == if cap {
            phrases_view(parts@).map_values(|l: Seq<char>| capitalized(trim(l)))
        } else {
            phrases_view(parts@).map_values(|l: Seq<char>| trim(l))
        },
{
    let mut r: Vec<Vec<char>> = Vec::new();
    let mut i: usize = 0;
    while i < parts.len()
        invariant
            i <= parts@.len(),
            r@.len() == i,
            forall|k: int|
                0 <= k < i ==> (#[trigger] r@[k])@ == if cap {
                    capitalized(trim(parts@[k]@))
                } else {
                    trim(parts@[k]@)
                },
        decreases parts.len() - i,
    {
        let t = trim_chars(&parts[i]);
        if cap {
            let c = capitalize(string_of(&t).as_str());
            r.push(chars_of(c.as_str()));
        } else {
            r.push(t);
        }
        i = i + 1;
    }
    proof {
        if cap {
            assert(phrases_view(r@) =~= phrases_view(parts@).map_values(
                |l: Seq<char>| capitalized(trim(l)),
            ));
        } else {
            assert(phrases_view(r@) =~= phrases_view(parts@).map_values(|l: Seq<char>| trim(l)));
        }
    }
    r
}

fn push_phrase(v: &mut Vec<Vec<char>>, t: Vec<char>)
    ensures
        phrases_view(final(v)@) == phrases_view(old(v)@).push(t@),
{
    let ghost before = v@;
    v.push(t);
    assert(phrases_view(v@) =~= phrases_view(before).push(t@));
}

fn sentence(prefix: &str, body: &[char], suffix: &str) -> (r: Vec<char>)
    ensures
        r@ == prefix@ + body@ + suffix@,
{
    concat_chars(&concat_chars(&chars_of(prefix), body), &chars_of(suffix))
}

impl Profile {
    /// The system prompt, personalised with what the profile holds.
    #[verifier::rlimit(50)]
    pub fn get_profile_summary(&self) -> (r: String)
        ensures
            r@ == profile_summary(self@),
    {
        let base = chars_of("You are Aide, a helpful assistant. When the user specifically asks you to create, generate, or produce an image, first describe what you're creating, then return a fenced code block with language 'image-prompt' containing a detailed, high-quality prompt for Stable Diffusion. Otherwise, chat normally and do not output image prompts. Do not output base64 data, and do not output Python or shell commands for image generation. IMPORTANT: If you don't know something about the user (like their name, preference, or context) and it's relevant to the conversation, feel free to ask them. You have long-term memory and will remember their answers for future sessions.");
        let languages = self.value_or_empty_exec("languages_mentioned");
        let skill = self.value_or_empty_exec("skill_level");
        let topics = self.value_or_empty_exec("topics_of_interest");
        let has_project = self.value_or_empty_exec("has_active_project");
        let total = self.value_or_empty_exec("total_turns");
        let remembered = self.value_or_empty_exec("remembered_facts");
        if languages.len() == 0 && skill.len() == 0 && topics.len() == 0 && total.len() == 0
            && remembered.len() == 0 {
            return string_of(&base);
        }
        let mut parts: Vec<Vec<char>> = Vec::new();
        push_phrase(&mut parts, base);
        let ghost p0 = phrases_view(parts@);
        if languages.len() > 0 {
            let items = map_trim(&split_exec(&languages, ','), true);
            push_phrase(&mut parts, sentence("The user works with: ", &join_exec(&items, &chars_of(", ")), "."));
        }
        let ghost p1 = phrases_view(parts@);
        if skill.len() > 0 {
            push_phrase(&mut parts, sentence("Their experience level appears to be ", &skill, "."));
        }
        let ghost p2 = phrases_view(parts@);
        if topics.len() > 0 {
            let items = map_trim(&split_exec(&topics, ','), false);
            push_phrase(&mut parts, sentence("They are interested in: ", &join_exec(&items, &chars_of(", ")), "."));
        }
        let ghost p3 = phrases_view(parts@);
        if total.len() > 0 && !eq_lit(&total, "0") {
            push_phrase(&mut parts, sentence("You have had ", &total, " conversations together."));
        }
        let ghost p4 = phrases_view(parts@);
        if eq_lit(&has_project, "true") {
            push_phrase(&mut parts, chars_of("The user is actively building a project."));
        }
        let ghost p5 = phrases_view(parts@);
        if remembered.len() > 0 {
            let items = map_trim(&split_exec(&remembered, '|'), false);
            push_phrase(&mut parts, sentence("The user has asked you to remember: ", &join_exec(&items, &chars_of("; ")), "."));
        }
        assert(phrases_view(parts@) =~= seq![base_prompt()] + sentence_if(
            languages@.len() > 0,
            "The user works with: "@ + join(
                split_on(languages@, ',').map_values(|l: Seq<char>| capitalized(trim(l))),
                ", "@,
            ) + "."@,
        ) + sentence_if(
            skill@.len() > 0,
            "Their experience level appears to be "@ + skill@ + "."@,
        ) + sentence_if(
            topics@.len() > 0,
            "They are interested in: "@ + join(
                split_on(topics@, ',').map_values(|t: Seq<char>| trim(t)),
                ", "@,
            ) + "."@,
        ) + sentence_if(
            total@.len() > 0 && total@ != "0"@,
            "You have had "@ + total@ + " conversations together."@,
        ) + sentence_if(has_project@ == "true"@, "The user is actively building a project."@)
            + sentence_if(
            remembered@.len() > 0,
            "The user has asked you to remember: "@ + join(
                split_on(remembered@, '|').map_values(|f: Seq<char>| trim(f)),
                "; "@,
            ) + "."@,
        ));
        string_of(&join_exec(&parts, &chars_of(" ")))
    }

    /// How many facts the user asked to remember (the non-blank items of
    /// the `|`-separated list).
    pub fn remembered_facts_count(&self) -> (r: usize)
        ensures
            r == if self@.contains_key("remembered_facts"@) {
                split_on(self@["remembered_facts"@], '|').filter(|f: Seq<char>| trim(f).len() > 0).len()
            } else {
                0
            },
    {
        match self.get_profile_value("remembered_facts") {
            Some(v) => {
                let parts = split_exec(&chars_of(v.as_str()), '|');
                let ghost pv = parts@.map_values(|x: Vec<char>| x@);
                let ghost keep = |f: Seq<char>| trim(f).len() > 0;
                let mut n: usize = 0;
                let mut i: usize = 0;
                while i < parts.len()
                    invariant
                        i <= parts@.len(),
                        pv == parts@.map_values(|x: Vec<char>| x@),
                        n == pv.take(i as int).filter(keep).len(),
                        n <= i,
                        keep == (|f: Seq<char>| trim(f).len() > 0),
                    decreases parts.len() - i,
                {
                    proof {
                        reveal(Seq::filter);
                        assert(pv.take(i + 1).drop_last() =~= pv.take(i as int));
                    }
                    if trim_chars(&parts[i]).len() > 0 {
                        n = n + 1;
                    }
                    i = i + 1;
                }
                assert(pv.take(parts@.len() as int) =~= pv);
                n
            },
            None => 0,
        }
    }

    /// Forget the facts the user asked to remember.
    pub fn clear_remembered_facts(&mut self)
        ensures
            final(self)@ == old(self)@.remove("remembered_facts"@),
            old(self)@.dom().finite(),
            final(self)@.len() == if old(self)@.contains_key("remembered_facts"@) {
                old(self)@.len() - 1
            } else {
                old(self)@.len() as int
            },
    {
        proof {
            use_type_invariant(&*self);
            lemma_map_len(entries_view(self.entries@));
            assert(self@.remove("remembered_facts"@).dom() =~= self@.dom().remove("remembered_facts"@));
        }
        self.remove_profile_value("remembered_facts");
    }
}


proof fn lemma_apply_concat(
    p: Map<Seq<char>, Seq<char>>,
    a: Seq<(Seq<char>, Seq<char>)>,
    b: Seq<(Seq<char>, Seq<char>)>,
)
    ensures
        apply_updates(p, a + b) == apply_updates(apply_updates(p, a), b),
    decreases b.len(),
{
    if b.len() == 0 {
        assert(a + b =~= a);
    } else {
        lemma_apply_concat(p, a, b.drop_last());
        assert((a + b).drop_last() =~= a + b.drop_last());
        assert((a + b).last() == b.last());
    }
}

/// Every character of `s` is a decimal digit.
pub open spec fn all_digits(s: Seq<char>) -> bool {
    forall|k: int| 0 <= k < s.len() ==> '0' <= #[trigger] s[k] <= '9'
}

proof fn lemma_prefix_value_push(s: Seq<char>, d: char, i: int, acc: nat)
    requires
        all_digits(s),
        '0' <= d <= '9',
        0 <= i <= s.len(),
    ensures
        digits_prefix_value(s.push(d), i, acc) == digits_prefix_value(s, i, acc) * 10 + (d as nat
            - '0' as nat),
    decreases s.len() - i,
{
    let t = s.push(d);
    if i < s.len() {
        assert(t[i] == s[i]);
        lemma_prefix_value_push(s, d, i + 1, (acc * 10 + (s[i] as nat - '0' as nat)) as nat);
    } else {
        assert(t[i] == d);
        let acc2 = (acc * 10 + (d as nat - '0' as nat)) as nat;
        assert(digits_prefix_value(t, i + 1, acc2) == acc2);
        assert(digits_prefix_value(s, i, acc) == acc);
    }
}

proof fn lemma_prefix_value_shift(c: char, t: Seq<char>, i: int, acc: nat)
    requires
        0 <= i,
    ensures
        digits_prefix_value(seq![c] + t, i + 1, acc) == digits_prefix_value(t, i, acc),
    decreases t.len() - i,
{
    let u = seq![c] + t;
    if i < t.len() {
        assert(u[i + 1] == t[i]);
        if '0' <= t[i] <= '9' {
            lemma_prefix_value_shift(c, t, i + 1, (acc * 10 + (t[i] as nat - '0' as nat)) as nat);
        }
    }
}

proof fn lemma_digits_all_digits(n: nat)
    ensures
        all_digits(crate::text::digits(n, 10)),
        crate::text::digits(n, 10).len() >= 1,
    decreases n,
{
    if n >= 10 {
        assert(n / 10 < n);
        lemma_digits_all_digits(n / 10);
    }
}

/// Reading back the decimal digits of a number gives the number.
proof fn lemma_prefix_value_digits(n: nat)
    ensures
        digits_prefix_value(crate::text::digits(n, 10), 0, 0) == n,
    decreases n,
{
    let ds = crate::text::digits(n, 10);
    if n < 10 {
        let c = crate::text::digit_char(n);
        assert(ds == seq![c]);
        assert(c as nat - '0' as nat == n);
        assert(seq![c] == Seq::<char>::empty().push(c));
        lemma_prefix_value_push(Seq::<char>::empty(), c, 0, 0);
    } else {
        assert(n / 10 < n);
        lemma_prefix_value_digits(n / 10);
        lemma_digits_all_digits(n / 10);
        let c = crate::text::digit_char(n % 10);
        assert(c as nat - '0' as nat == n % 10);
        lemma_prefix_value_push(crate::text::digits(n / 10, 10), c, 0, 0);
    }
}

/// SQLite reads back the integer that `signed_decimal` writes.
proof fn lemma_cast_signed_decimal(n: int)
    requires
        -0x8000_0000_0000_0000 <= n <= 0x7fff_ffff_ffff_ffff,
    ensures
        cast_integer(signed_decimal(n)) == n,
{
    let s = signed_decimal(n);
    if n < 0 {
        let k = (-n) as nat;
        let ds = crate::text::digits(k, 10);
        reveal_strlit("-");
        assert("-"@ == seq!['-']);
        assert(s == seq!['-'] + ds);
        assert(s[0] == '-');
        assert(sql_spaces_end(s, 0) == 0);
        lemma_prefix_value_shift('-', ds, 0, 0);
        lemma_prefix_value_digits(k);
    } else {
        lemma_digits_all_digits(n as nat);
        assert('0' <= s[0] <= '9');
        assert(sql_spaces_end(s, 0) == 0);
        lemma_prefix_value_digits(n as nat);
    }
}

/// SQLite's integers lie in the range of `i64`.
proof fn lemma_cast_range(s: Seq<char>)
    ensures
        -0x8000_0000_0000_0000 <= cast_integer(s) <= 0x7fff_ffff_ffff_ffff,
{
}

/// Every message counts as one turn: the turn counter afterwards reads one
/// more than before (`1` the first time).
pub proof fn law_turn_counted(p: Map<Seq<char>, Seq<char>>, msg: Seq<char>)
    ensures
        ({
            let p1 = apply_updates(p, learn_updates(p, msg));
            &&& p1.contains_key("total_turns"@)
            &&& p1["total_turns"@] == incremented(p, "total_turns"@)
            &&& cast_integer(p1["total_turns"@]) == if p.contains_key("total_turns"@) {
                let n = cast_integer(p["total_turns"@]);
                if n < 0x7fff_ffff_ffff_ffff { n + 1 } else { n }
            } else {
                1
            }
        }),
{
    let u = learn_updates(p, msg);
    assert(u.drop_last().push(u.last()) =~= u);
    assert(u.last() == ("total_turns"@, incremented(p, "total_turns"@)));
    if p.contains_key("total_turns"@) {
        let n = cast_integer(p["total_turns"@]);
        lemma_cast_range(p["total_turns"@]);
        let m = if n < 0x7fff_ffff_ffff_ffff { n + 1 } else { n };
        lemma_cast_signed_decimal(m);
    } else {
        reveal_strlit("1");
        assert("1"@ == seq!['1']);
        assert(cast_integer("1"@) == 1) by {
            assert(sql_spaces_end("1"@, 0) == 0);
            assert(digits_prefix_value("1"@, 1, 1) == 1);
        }
    }
}


proof fn lemma_apply_other_key(
    q: Map<Seq<char>, Seq<char>>,
    seg: Seq<(Seq<char>, Seq<char>)>,
    key: Seq<char>,
)
    requires
        forall|i: int| 0 <= i < seg.len() ==> (#[trigger] seg[i]).0 != key,
    ensures
        apply_updates(q, seg).contains_key(key) == q.contains_key(key),
        value_or_empty(apply_updates(q, seg), key) == value_or_empty(q, key),
    decreases seg.len(),
{
    if seg.len() > 0 {
        lemma_apply_other_key(q, seg.drop_last(), key);
        assert(seg.last() == seg[seg.len() - 1]);
    }
}

proof fn lemma_profile_keys_distinct()
    ensures
        "languages_mentioned"@ != "remembered_facts"@,
        "skill_level"@ != "remembered_facts"@,
        "topics_of_interest"@ != "remembered_facts"@,
        "has_active_project"@ != "remembered_facts"@,
        "total_turns"@ != "remembered_facts"@,
{
    reveal_strlit("languages_mentioned");
    reveal_strlit("skill_level");
    reveal_strlit("topics_of_interest");
    reveal_strlit("has_active_project");
    reveal_strlit("total_turns");
    reveal_strlit("remembered_facts");
    assert("languages_mentioned"@[0] != "remembered_facts"@[0]);
    assert("skill_level"@[0] != "remembered_facts"@[0]);
    assert("topics_of_interest"@[0] != "remembered_facts"@[0]);
    assert("has_active_project"@[0] != "remembered_facts"@[0]);
    assert("total_turns"@[0] != "remembered_facts"@[0]);
}

/// A fact asked to be remembered is stored once: after the message is
/// learned, the stored facts hold it, and learning the same message again
/// does not store it a second time (for a fact without `|`, the separator
/// of stored facts).
pub proof fn law_remember_once(p: Map<Seq<char>, Seq<char>>, msg: Seq<char>)
    requires
        requested_fact(msg) is Some,
        requested_fact(msg)->0.len() > 0,
        forall|k: int|
            0 <= k < requested_fact(msg)->0.len() ==> requested_fact(msg)->0[k] != '|',
    ensures
        ({
            let p1 = apply_updates(p, learn_updates(p, msg));
            &&& already_remembered(
                value_or_empty(p1, "remembered_facts"@),
                requested_fact(msg)->0,
            )
            &&& remember_update(p1, msg) == Seq::<(Seq<char>, Seq<char>)>::empty()
        }),
{
    let f = requested_fact(msg)->0;
    let rf = "remembered_facts"@;
    let lower = padded_lower(msg);
    let a = language_update(p, lower) + skill_update(lower) + topic_update(p, lower) + update_if(
        any_signal(lower, project_signals()),
        "has_active_project"@,
        "true"@,
    );
    let r = remember_update(p, msg);
    let t = seq![("total_turns"@, incremented(p, "total_turns"@))];
    lemma_profile_keys_distinct();
    assert(learn_updates(p, msg) == a + r + t);
    lemma_apply_concat(p, a + r, t);
    lemma_apply_concat(p, a, r);
    assert forall|i: int| 0 <= i < a.len() implies (#[trigger] a[i]).0 != rf by {
        reveal_strlit("skill_level");
    }
    lemma_apply_other_key(p, a, rf);
    lemma_apply_other_key(apply_updates(p, a + r), t, rf);
    let q = apply_updates(p, a);
    let existing = value_or_empty(p, rf);
    // f is trimmed, so trimming it again changes nothing
    let i0 = first_trigger(lowercase(trim(msg)), remember_triggers(), 0)->0;
    crate::text::lemma_trim_idempotent(skip_upto(trim(msg), remember_triggers()[i0].len() as int));
    assert(trim(f) == f);
    crate::text::lemma_split_none(f, '|');
    let pf = split_on(f, '|');
    assert(pf[0] == f);
    if already_remembered(existing, f) {
        assert(r =~= Seq::<(Seq<char>, Seq<char>)>::empty());
        assert(a + r =~= a);
    } else {
        let stored = if existing.len() == 0 {
            f
        } else {
            existing + "|"@ + f
        };
        assert(r == seq![(rf, stored)]);
        assert(apply_updates(q, r) == apply_updates(q, Seq::<(Seq<char>, Seq<char>)>::empty()).insert(rf, stored)) by {
            assert(r.drop_last() =~= Seq::<(Seq<char>, Seq<char>)>::empty());
        }
        if existing.len() == 0 {
            assert(lowercase(trim(pf[0])) == lowercase(f));
        } else {
            reveal_strlit("|");
            assert("|"@ =~= seq!['|']);
            crate::text::lemma_split_append(existing, '|', f);
            let ps = split_on(stored, '|');
            let n = split_on(existing, '|').len();
            assert(ps == split_on(existing, '|') + pf);
            assert(ps[n as int] == f);
            assert(lowercase(trim(ps[n as int])) == lowercase(f));
        }
    }
}


/// A name that can stand in a comma-separated list: not empty, no comma,
/// no white space at either end.
pub open spec fn plain_name(n: Seq<char>) -> bool {
    &&& n.len() > 0
    &&& !crate::text::is_white_space(n[0])
    &&& !crate::text::is_white_space(n.last())
    &&& forall|j: int| 0 <= j < n.len() ==> n[j] != ','
}

proof fn lemma_lang_names_plain()
    ensures
        forall|k: int| 0 <= k < lang_patterns().len() ==> plain_name(#[trigger] lang_patterns()[k].1),
{
    reveal_strlit("rust");
    reveal_strlit("python");
    reveal_strlit("go");
    reveal_strlit("javascript");
    reveal_strlit("typescript");
    reveal_strlit("c++");
    reveal_strlit("java");
    reveal_strlit("ruby");
    reveal_strlit("swift");
    reveal_strlit("kotlin");
    reveal_strlit("c#");
    reveal_strlit("php");
    reveal_strlit("scala");
    reveal_strlit("haskell");
    reveal_strlit("erlang");
    reveal_strlit("elixir");
    reveal_strlit("lua");
    reveal_strlit("bash");
    reveal_strlit("shell");
    assert forall|k: int| 0 <= k < lang_patterns().len() implies plain_name(
        #[trigger] lang_patterns()[k].1,
    ) by {
        let n = lang_patterns()[k].1;
        assert(n.len() > 0);
        assert forall|j: int| 0 <= j < n.len() implies n[j] != ',' by {}
    }
}

proof fn lemma_found_names(pats: Seq<(Seq<char>, Seq<char>)>, lower: Seq<char>, n: int)
    requires
        0 <= n <= pats.len(),
    ensures
        forall|i: int|
            0 <= i < found_names(pats, lower, n).len() ==> exists|k: int|
                0 <= k < n && #[trigger] found_names(pats, lower, n)[i] == #[trigger] pats[k].1,
        forall|k: int|
            0 <= k < n && contains(lower, pats[k].0) ==> found_names(pats, lower, n).contains(
                #[trigger] pats[k].1,
            ),
    decreases n,
{
    if n > 0 {
        lemma_found_names(pats, lower, n - 1);
        let prev = found_names(pats, lower, n - 1);
        let cur = found_names(pats, lower, n);
        assert forall|i: int| #![trigger cur[i]] 0 <= i < cur.len() implies exists|k: int|
            0 <= k < n && cur[i] == #[trigger] pats[k].1 by {
            if i < prev.len() {
                assert(cur[i] == prev[i]);
                let k = choose|k: int| 0 <= k < n - 1 && prev[i] == #[trigger] pats[k].1;
                assert(cur[i] == pats[k].1);
            } else {
                assert(cur[i] == pats[n - 1].1);
            }
        }
        assert forall|k: int| 0 <= k < n && contains(lower, pats[k].0) implies cur.contains(
            #[trigger] pats[k].1,
        ) by {
            if k < n - 1 {
                let i = choose|i: int| 0 <= i < prev.len() && prev[i] == pats[k].1;
                assert(cur[i] == prev[i]);
            } else {
                if prev.contains(pats[k].1) {
                    let i = choose|i: int| 0 <= i < prev.len() && prev[i] == pats[k].1;
                    assert(cur[i] == prev[i]);
                } else {
                    assert(cur[cur.len() - 1] == pats[k].1);
                }
            }
        }
    }
}

proof fn lemma_add_missing(set: Seq<Seq<char>>, found: Seq<Seq<char>>)
    ensures
        forall|i: int| 0 <= i < set.len() ==> add_missing(set, found).contains(#[trigger] set[i]),
        forall|i: int|
            0 <= i < found.len() ==> add_missing(set, found).contains(#[trigger] found[i]),
        forall|i: int|
            0 <= i < add_missing(set, found).len() ==> set.contains(
                #[trigger] add_missing(set, found)[i],
            ) || found.contains(add_missing(set, found)[i]),
    decreases found.len(),
{
    if found.len() > 0 {
        let f0 = found.drop_last();
        lemma_add_missing(set, f0);
        let s0 = add_missing(set, f0);
        let s1 = add_missing(set, found);
        assert forall|i: int| 0 <= i < set.len() implies s1.contains(#[trigger] set[i]) by {
            let j = choose|j: int| 0 <= j < s0.len() && s0[j] == set[i];
            assert(s1[j] == s0[j]);
        }
        assert forall|i: int| 0 <= i < found.len() implies s1.contains(#[trigger] found[i]) by {
            if i < found.len() - 1 {
                assert(found[i] == f0[i]);
                let j = choose|j: int| 0 <= j < s0.len() && s0[j] == f0[i];
                assert(s1[j] == s0[j]);
            } else if s0.contains(found.last()) {
                let j = choose|j: int| 0 <= j < s0.len() && s0[j] == found.last();
                assert(s1[j] == s0[j]);
            } else {
                assert(s1[s1.len() - 1] == found.last());
            }
        }
        assert forall|i: int| 0 <= i < s1.len() implies set.contains(#[trigger] s1[i])
            || found.contains(s1[i]) by {
            if i < s0.len() {
                assert(s1[i] == s0[i]);
                if f0.contains(s0[i]) {
                    let j = choose|j: int| 0 <= j < f0.len() && f0[j] == s0[i];
                    assert(found[j] == f0[j]);
                }
            } else {
                assert(s1[i] == found[found.len() - 1]);
            }
        }
    }
}

proof fn lemma_list_items_plain(existing: Seq<char>)
    ensures
        forall|i: int, j: int|
            0 <= i < list_items(existing).len() && 0 <= j < list_items(existing)[i].len()
                ==> #[trigger] list_items(existing)[i][j] != ',',
        forall|i: int|
            0 <= i < list_items(existing).len() ==> trim(#[trigger] list_items(existing)[i])
                == list_items(existing)[i],
{
    if existing.len() > 0 {
        let parts = split_on(existing, ',');
        crate::text::lemma_split_pieces(existing, ',');
        let items = list_items(existing);
        assert forall|i: int| 0 <= i < items.len() implies trim(#[trigger] items[i]) == items[i] by {
            crate::text::lemma_trim_idempotent(parts[i]);
        }
        assert forall|i: int, j: int| 0 <= i < items.len() && 0 <= j < items[i].len() implies #[trigger] items[i][j]
            != ',' by {
            crate::text::lemma_trim_sub(parts[i]);
            let (a, b) = choose|a: int, b: int|
                0 <= a <= b <= parts[i].len() && trim(parts[i]) == parts[i].subrange(a, b);
            assert(items[i][j] == parts[i][a + j]);
        }
    }
}

/// Languages accumulate: after a message that names a language, the stored
/// list still holds every language it held before, and holds each one the
/// message names.
pub proof fn law_languages_accumulate(p: Map<Seq<char>, Seq<char>>, msg: Seq<char>)
    requires
        found_names(lang_patterns(), padded_lower(msg), 23).len() > 0,
    ensures
        ({
            let before = list_items(value_or_empty(p, "languages_mentioned"@));
            let after = list_items(
                value_or_empty(apply_updates(p, learn_updates(p, msg)), "languages_mentioned"@),
            );
            let found = found_names(lang_patterns(), padded_lower(msg), 23);
            &&& forall|i: int| 0 <= i < before.len() ==> after.contains(#[trigger] before[i])
            &&& forall|i: int| 0 <= i < found.len() ==> after.contains(#[trigger] found[i])
        }),
{
    let lm = "languages_mentioned"@;
    let lower = padded_lower(msg);
    let found = found_names(lang_patterns(), lower, 23);
    let existing = value_or_empty(p, lm);
    let merged = merged_list(existing, found);
    let l = language_update(p, lower);
    assert(l == seq![(lm, merged)]);
    let rest = skill_update(lower) + topic_update(p, lower) + update_if(
        any_signal(lower, project_signals()),
        "has_active_project"@,
        "true"@,
    ) + remember_update(p, msg) + seq![("total_turns"@, incremented(p, "total_turns"@))];
    assert(learn_updates(p, msg) =~= l + rest);
    lemma_apply_concat(p, l, rest);
    assert(apply_updates(p, l) == p.insert(lm, merged)) by {
        assert(l.drop_last() =~= Seq::<(Seq<char>, Seq<char>)>::empty());
        assert(apply_updates(p, l.drop_last()) == p);
        assert(l.last() == (lm, merged));
    }
    reveal_strlit("languages_mentioned");
    reveal_strlit("skill_level");
    reveal_strlit("topics_of_interest");
    reveal_strlit("has_active_project");
    reveal_strlit("total_turns");
    reveal_strlit("remembered_facts");
    assert forall|i: int| 0 <= i < rest.len() implies (#[trigger] rest[i]).0 != lm by {
        assert(lm[0] == 'l');
        assert("skill_level"@[0] != 'l');
        assert("topics_of_interest"@[0] != 'l');
        assert("has_active_project"@[0] != 'l');
        assert("remembered_facts"@[0] != 'l');
        assert("total_turns"@[0] != 'l');
    }
    lemma_apply_other_key(p.insert(lm, merged), rest, lm);
    lemma_lang_names_plain();
    lemma_found_plain(lang_patterns(), lower, 23);
    lemma_merged_items(existing, found);
    lemma_add_missing(list_items(existing), found);
}

proof fn lemma_topic_names_plain()
    ensures
        forall|k: int| 0 <= k < topic_patterns().len() ==> plain_name(#[trigger] topic_patterns()[k].1),
{
    reveal_strlit("web");
    reveal_strlit("frontend");
    reveal_strlit("backend");
    reveal_strlit("ml");
    reveal_strlit("devops");
    reveal_strlit("embedded");
    reveal_strlit("cli");
    reveal_strlit("systems");
    reveal_strlit("database");
    reveal_strlit("api");
    reveal_strlit("mobile");
    reveal_strlit("game development");
    reveal_strlit("cloud");
    assert forall|k: int| 0 <= k < topic_patterns().len() implies plain_name(
        #[trigger] topic_patterns()[k].1,
    ) by {
        let n = topic_patterns()[k].1;
        assert(n.len() > 0);
        assert forall|j: int| 0 <= j < n.len() implies n[j] != ',' by {}
    }
}

proof fn lemma_found_plain(pats: Seq<(Seq<char>, Seq<char>)>, lower: Seq<char>, n: int)
    requires
        0 <= n <= pats.len(),
        forall|k: int| 0 <= k < pats.len() ==> plain_name(#[trigger] pats[k].1),
    ensures
        forall|i: int|
            0 <= i < found_names(pats, lower, n).len() ==> plain_name(
                #[trigger] found_names(pats, lower, n)[i],
            ),
{
    lemma_found_names(pats, lower, n);
    let f = found_names(pats, lower, n);
    assert forall|i: int| 0 <= i < f.len() implies plain_name(#[trigger] f[i]) by {
        let k = choose|k: int| 0 <= k < n && f[i] == #[trigger] pats[k].1;
        assert(plain_name(pats[k].1));
    }
}

/// A list merged with plain names splits back into the items it was made of.
proof fn lemma_merged_items(existing: Seq<char>, found: Seq<Seq<char>>)
    requires
        found.len() > 0,
        forall|i: int| 0 <= i < found.len() ==> plain_name(#[trigger] found[i]),
    ensures
        list_items(merged_list(existing, found)) == add_missing(list_items(existing), found),
{
    let set = list_items(existing);
    let s = add_missing(set, found);
    let merged = merged_list(existing, found);
    lemma_add_missing(set, found);
    lemma_list_items_plain(existing);
    assert forall|i: int| 0 <= i < s.len() implies plain_name(#[trigger] s[i]) || (set.contains(
        s[i],
    ) && (forall|j: int| 0 <= j < s[i].len() ==> s[i][j] != ',') && trim(s[i]) == s[i]) by {
        if set.contains(s[i]) {
            let k = choose|k: int| 0 <= k < set.len() && set[k] == s[i];
            assert(trim(set[k]) == set[k]);
            assert forall|j: int| 0 <= j < s[i].len() implies s[i][j] != ',' by {
                assert(set[k][j] != ',');
            }
        } else {
            let k = choose|k: int| 0 <= k < found.len() && found[k] == s[i];
            assert(plain_name(found[k]));
        }
    }
    assert forall|i: int, j: int| 0 <= i < s.len() && 0 <= j < s[i].len() implies s[i][j] != ',' by {
        if plain_name(s[i]) {
        }
    }
    assert forall|i: int| 0 <= i < s.len() implies trim(#[trigger] s[i]) == s[i] by {
        if plain_name(s[i]) {
            crate::text::lemma_trim_noop(s[i]);
        }
    }
    assert(plain_name(found[0]));
    let k0 = choose|k: int| 0 <= k < s.len() && s[k] == found[0];
    reveal_strlit(",");
    assert(","@ =~= seq![',']);
    crate::text::lemma_split_join(s, ',');
    crate::text::lemma_join_len(s, ","@, k0);
    assert(merged.len() > 0);
    let after = list_items(merged);
    assert(after =~= s.map_values(|x: Seq<char>| trim(x)));
    assert(after =~= s);
}

proof fn lemma_add_missing_noop(set: Seq<Seq<char>>, found: Seq<Seq<char>>)
    requires
        forall|i: int| 0 <= i < found.len() ==> set.contains(#[trigger] found[i]),
    ensures
        add_missing(set, found) == set,
    decreases found.len(),
{
    if found.len() > 0 {
        assert forall|i: int| 0 <= i < found.drop_last().len() implies set.contains(
            #[trigger] found.drop_last()[i],
        ) by {
            assert(found.drop_last()[i] == found[i]);
        }
        lemma_add_missing_noop(set, found.drop_last());
        assert(set.contains(found[found.len() - 1]));
    }
}

/// Merging the same plain names into a list a second time changes nothing.
proof fn lemma_merged_idempotent(existing: Seq<char>, found: Seq<Seq<char>>)
    requires
        found.len() > 0,
        forall|i: int| 0 <= i < found.len() ==> plain_name(#[trigger] found[i]),
    ensures
        merged_list(merged_list(existing, found), found) == merged_list(existing, found),
{
    let s = add_missing(list_items(existing), found);
    lemma_merged_items(existing, found);
    lemma_add_missing(list_items(existing), found);
    lemma_add_missing_noop(s, found);
}

/// The value that the last of the updates `u` with key `k` sets, if any.
pub open spec fn last_update(u: Seq<(Seq<char>, Seq<char>)>, k: Seq<char>) -> Option<Seq<char>>
    decreases u.len(),
{
    if u.len() == 0 {
        None
    } else if u.last().0 == k {
        Some(u.last().1)
    } else {
        last_update(u.drop_last(), k)
    }
}

proof fn lemma_apply_last_update(q: Map<Seq<char>, Seq<char>>, u: Seq<(Seq<char>, Seq<char>)>, k: Seq<char>)
    ensures
        apply_updates(q, u).contains_key(k) == (last_update(u, k) is Some || q.contains_key(k)),
        last_update(u, k) matches Some(v) ==> apply_updates(q, u)[k] == v,
        last_update(u, k) is None && q.contains_key(k) ==> apply_updates(q, u)[k] == q[k],
    decreases u.len(),
{
    if u.len() > 0 {
        lemma_apply_last_update(q, u.drop_last(), k);
    }
}

proof fn lemma_last_update_concat(
    a: Seq<(Seq<char>, Seq<char>)>,
    b: Seq<(Seq<char>, Seq<char>)>,
    k: Seq<char>,
)
    ensures
        last_update(a + b, k) == if last_update(b, k) is Some {
            last_update(b, k)
        } else {
            last_update(a, k)
        },
    decreases b.len(),
{
    if b.len() == 0 {
        assert(a + b =~= a);
    } else {
        assert((a + b).drop_last() =~= a + b.drop_last());
        assert((a + b).last() == b.last());
        lemma_last_update_concat(a, b.drop_last(), k);
    }
}

proof fn lemma_last_update_one(key: Seq<char>, v: Seq<char>, k: Seq<char>)
    ensures
        last_update(seq![(key, v)], k) == if key == k { Some(v) } else { None::<Seq<char>> },
{
    let u = seq![(key, v)];
    assert(u.drop_last() =~= Seq::<(Seq<char>, Seq<char>)>::empty());
    assert(u.last() == (key, v));
    assert(last_update(u.drop_last(), k) is None);
}

proof fn lemma_update_if_last(c: bool, key: Seq<char>, v: Seq<char>, k: Seq<char>)
    ensures
        last_update(update_if(c, key, v), k) == if c && key == k { Some(v) } else { None::<Seq<char>> },
{
    lemma_last_update_one(key, v, k);
}

proof fn lemma_six_keys_distinct()
    ensures
        "languages_mentioned"@ != "skill_level"@,
        "languages_mentioned"@ != "topics_of_interest"@,
        "languages_mentioned"@ != "has_active_project"@,
        "languages_mentioned"@ != "remembered_facts"@,
        "languages_mentioned"@ != "total_turns"@,
        "skill_level"@ != "topics_of_interest"@,
        "skill_level"@ != "has_active_project"@,
        "skill_level"@ != "remembered_facts"@,
        "skill_level"@ != "total_turns"@,
        "topics_of_interest"@ != "has_active_project"@,
        "topics_of_interest"@ != "remembered_facts"@,
        "topics_of_interest"@ != "total_turns"@,
        "has_active_project"@ != "remembered_facts"@,
        "has_active_project"@ != "total_turns"@,
        "remembered_facts"@ != "total_turns"@,
{
    reveal_strlit("languages_mentioned");
    reveal_strlit("skill_level");
    reveal_strlit("topics_of_interest");
    reveal_strlit("has_active_project");
    reveal_strlit("total_turns");
    reveal_strlit("remembered_facts");
    assert("languages_mentioned"@[0] == 'l');
    assert("skill_level"@[0] == 's');
    assert("topics_of_interest"@[0] == 't' && "topics_of_interest"@[2] == 'p');
    assert("has_active_project"@[0] == 'h');
    assert("remembered_facts"@[0] == 'r');
    assert("total_turns"@[0] == 't' && "total_turns"@[2] == 't');
}

/// Which update of a message sets the key `k`: each of the six keys has its
/// own, and no other key is set.
proof fn lemma_learn_lookup(p: Map<Seq<char>, Seq<char>>, msg: Seq<char>, k: Seq<char>)
    ensures
        ({
            let lower = padded_lower(msg);
            last_update(learn_updates(p, msg), k) == if k == "total_turns"@ {
                Some(incremented(p, "total_turns"@))
            } else if k == "remembered_facts"@ {
                last_update(remember_update(p, msg), k)
            } else if k == "has_active_project"@ {
                if any_signal(lower, project_signals()) { Some("true"@) } else { None }
            } else if k == "topics_of_interest"@ {
                last_update(topic_update(p, lower), k)
            } else if k == "skill_level"@ {
                last_update(skill_update(lower), k)
            } else if k == "languages_mentioned"@ {
                last_update(language_update(p, lower), k)
            } else {
                None
            }
        }),
{
    let lower = padded_lower(msg);
    let lm = "languages_mentioned"@;
    let sk = "skill_level"@;
    let tp = "topics_of_interest"@;
    let hp = "has_active_project"@;
    let rf = "remembered_facts"@;
    let tt = "total_turns"@;
    lemma_six_keys_distinct();
    let l = language_update(p, lower);
    let s = skill_update(lower);
    let t = topic_update(p, lower);
    let pr = update_if(any_signal(lower, project_signals()), hp, "true"@);
    let r = remember_update(p, msg);
    let c = seq![(tt, incremented(p, tt))];
    lemma_last_update_concat(l + s + t + pr + r, c, k);
    lemma_last_update_concat(l + s + t + pr, r, k);
    lemma_last_update_concat(l + s + t, pr, k);
    lemma_last_update_concat(l + s, t, k);
    lemma_last_update_concat(l, s, k);
    lemma_last_update_one(tt, incremented(p, tt), k);
    lemma_update_if_last(any_signal(lower, project_signals()), hp, "true"@, k);
    let langs = found_names(lang_patterns(), lower, 23);
    lemma_update_if_last(langs.len() > 0, lm, merged_list(value_or_empty(p, lm), langs), k);
    let topics = found_names(topic_patterns(), lower, 18);
    lemma_update_if_last(topics.len() > 0, tp, merged_list(value_or_empty(p, tp), topics), k);
    lemma_last_update_one(sk, "expert"@, k);
    lemma_last_update_one(sk, "beginner"@, k);
    match requested_fact(msg) {
        Some(fact) => {
            let existing = value_or_empty(p, rf);
            lemma_update_if_last(
                fact.len() > 0 && !already_remembered(existing, fact),
                rf,
                if existing.len() == 0 { fact } else { existing + "|"@ + fact },
                k,
            );
        },
        None => {},
    }
}

/// Learning the same message a second time changes nothing of the profile
/// but the turn counter, which counts the message again: languages, topics,
/// skill level, the project flag and the remembered facts stay as the first
/// time left them (for a fact to remember without `|`, the separator of
/// stored facts).
pub proof fn law_learn_twice(p: Map<Seq<char>, Seq<char>>, msg: Seq<char>)
    requires
        requested_fact(msg) matches Some(f) ==> forall|j: int| 0 <= j < f.len() ==> f[j] != '|',
    ensures
        ({
            let p1 = apply_updates(p, learn_updates(p, msg));
            let p2 = apply_updates(p1, learn_updates(p1, msg));
            p2 == p1.insert("total_turns"@, incremented(p1, "total_turns"@))
        }),
{
    let p1 = apply_updates(p, learn_updates(p, msg));
    let p2 = apply_updates(p1, learn_updates(p1, msg));
    let q = p1.insert("total_turns"@, incremented(p1, "total_turns"@));
    let lower = padded_lower(msg);
    let lm = "languages_mentioned"@;
    let tp = "topics_of_interest"@;
    let rf = "remembered_facts"@;
    lemma_six_keys_distinct();
    let langs = found_names(lang_patterns(), lower, 23);
    let topics = found_names(topic_patterns(), lower, 18);
    lemma_lang_names_plain();
    lemma_topic_names_plain();
    lemma_found_plain(lang_patterns(), lower, 23);
    lemma_found_plain(topic_patterns(), lower, 18);
    if langs.len() > 0 {
        lemma_merged_idempotent(value_or_empty(p, lm), langs);
    }
    if topics.len() > 0 {
        lemma_merged_idempotent(value_or_empty(p, tp), topics);
    }
    if requested_fact(msg) matches Some(f) && f.len() > 0 {
        law_remember_once(p, msg);
    }
    assert forall|k: Seq<char>| #![trigger p2.contains_key(k)] #![trigger q.contains_key(k)]
        p2.contains_key(k) == q.contains_key(k) && (q.contains_key(k) ==> p2[k] == q[k]) by {
        lemma_learn_lookup(p, msg, k);
        lemma_learn_lookup(p1, msg, k);
        lemma_apply_last_update(p, learn_updates(p, msg), k);
        lemma_apply_last_update(p1, learn_updates(p1, msg), k);
        lemma_last_update_one(lm, merged_list(value_or_empty(p1, lm), langs), k);
        lemma_update_if_last(langs.len() > 0, lm, merged_list(value_or_empty(p, lm), langs), k);
        lemma_update_if_last(langs.len() > 0, lm, merged_list(value_or_empty(p1, lm), langs), k);
        lemma_update_if_last(topics.len() > 0, tp, merged_list(value_or_empty(p, tp), topics), k);
        lemma_update_if_last(topics.len() > 0, tp, merged_list(value_or_empty(p1, tp), topics), k);
        lemma_last_update_one("skill_level"@, "expert"@, k);
        lemma_last_update_one("skill_level"@, "beginner"@, k);
        if k == rf {
            match requested_fact(msg) {
                Some(fact) => {
                    let existing = value_or_empty(p1, rf);
                    lemma_update_if_last(
                        fact.len() > 0 && !already_remembered(existing, fact),
                        rf,
                        if existing.len() == 0 { fact } else { existing + "|"@ + fact },
                        k,
                    );
                    if fact.len() > 0 {
                        assert(remember_update(p1, msg) =~= Seq::<(Seq<char>, Seq<char>)>::empty());
                    }
                },
                None => {},
            }
        }
    }
    assert(p2 =~= q);
}

/// An expert phrase wins: after a message whose padded, lower-cased text
/// holds an expert phrase, the profile records the skill level `expert`,
/// whether or not it also holds a beginner phrase; `beginner` is recorded
/// only for a message with a beginner phrase and no expert one; a message
/// with neither leaves the skill level as it was.
pub proof fn law_expert_phrase_wins(p: Map<Seq<char>, Seq<char>>, msg: Seq<char>)
    ensures
        ({
            let lower = padded_lower(msg);
            let p1 = apply_updates(p, learn_updates(p, msg));
            let sk = "skill_level"@;
            &&& any_signal(lower, expert_signals()) ==> p1.contains_key(sk) && p1[sk] == "expert"@
            &&& !any_signal(lower, expert_signals()) && any_signal(lower, beginner_signals())
                ==> p1.contains_key(sk) && p1[sk] == "beginner"@
            &&& !any_signal(lower, expert_signals()) && !any_signal(lower, beginner_signals())
                ==> p1.contains_key(sk) == p.contains_key(sk) && (p.contains_key(sk) ==> p1[sk]
                == p[sk])
        }),
{
    let sk = "skill_level"@;
    lemma_six_keys_distinct();
    lemma_learn_lookup(p, msg, sk);
    lemma_apply_last_update(p, learn_updates(p, msg), sk);
    lemma_last_update_one(sk, "expert"@, sk);
    lemma_last_update_one(sk, "beginner"@, sk);
}

/// The system prompt tells the model what the user asked it to remember:
/// whenever the profile holds remembered facts, the summary ends with the
/// sentence that lists them, each trimmed, joined with `; `.
#[verifier::rlimit(40)]
pub proof fn law_summary_lists_remembered_facts(p: Map<Seq<char>, Seq<char>>)
    requires
        p.contains_key("remembered_facts"@),
        p["remembered_facts"@].len() > 0,
    ensures
        ({
            let s = profile_summary(p);
            let tail = " The user has asked you to remember: "@ + join(
                split_on(p["remembered_facts"@], '|').map_values(|f: Seq<char>| trim(f)),
                "; "@,
            ) + "."@;
            s.len() >= tail.len() && s.skip(s.len() - tail.len()) == tail
        }),
{
    let rf = "remembered_facts"@;
    let remembered = value_or_empty(p, rf);
    let sentence = "The user has asked you to remember: "@ + join(
        split_on(remembered, '|').map_values(|f: Seq<char>| trim(f)),
        "; "@,
    ) + "."@;
    let languages = value_or_empty(p, "languages_mentioned"@);
    let skill = value_or_empty(p, "skill_level"@);
    let topics = value_or_empty(p, "topics_of_interest"@);
    let has_project = value_or_empty(p, "has_active_project"@);
    let total = value_or_empty(p, "total_turns"@);
    let front = seq![base_prompt()] + sentence_if(
        languages.len() > 0,
        "The user works with: "@ + join(
            split_on(languages, ',').map_values(|l: Seq<char>| capitalized(trim(l))),
            ", "@,
        ) + "."@,
    ) + sentence_if(skill.len() > 0, "Their experience level appears to be "@ + skill + "."@)
        + sentence_if(
        topics.len() > 0,
        "They are interested in: "@ + join(
            split_on(topics, ',').map_values(|t: Seq<char>| trim(t)),
            ", "@,
        ) + "."@,
    ) + sentence_if(
        total.len() > 0 && total != "0"@,
        "You have had "@ + total + " conversations together."@,
    ) + sentence_if(has_project == "true"@, "The user is actively building a project."@);
    assert(sentence_if(remembered.len() > 0, sentence) == seq![sentence]);
    assert(profile_summary(p) == join(front + seq![sentence], " "@));
    lemma_join_ends_with(front, sentence, " "@);
    assert(" "@ + sentence =~= " The user has asked you to remember: "@ + join(
        split_on(remembered, '|').map_values(|f: Seq<char>| trim(f)),
        "; "@,
    ) + "."@) by {
        reveal_strlit(" ");
        reveal_strlit("The user has asked you to remember: ");
        reveal_strlit(" The user has asked you to remember: ");
    }
}

proof fn lemma_join_ends_with(front: Seq<Seq<char>>, last: Seq<char>, sep: Seq<char>)
    requires
        front.len() >= 1,
    ensures
        ({
            let s = join(front + seq![last], sep);
            s.len() >= sep.len() + last.len() && s.skip(s.len() - (sep.len() + last.len())) == sep
                + last
        }),
{
    let parts = front + seq![last];
    assert(parts.drop_last() =~= front);
    assert(parts.last() == last);
    let s = join(parts, sep);
    assert(s == join(front, sep) + sep + last);
    assert(s.skip(s.len() - (sep.len() + last.len())) =~= sep + last);
}

} // verus!
