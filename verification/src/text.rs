//! Character-level text utilities with exact specifications.
use vstd::prelude::*;

verus! {

/// `String::push` appends one character.
pub assume_specification[ String::push ](s: &mut String, ch: char)
    ensures
        final(s)@ == old(s)@.push(ch),
;

/// The characters of a string slice, in order.
pub fn chars_of(s: &str) -> (v: Vec<char>)
    ensures
        v@ == s@,
{
    let mut v: Vec<char> = Vec::new();
    for c in it: s.chars()
        invariant
            v@ == it.seq().take(it.index() as int),
            it.seq() == s@,
    {
        v.push(c);
    }
    v
}

/// A string holding the given characters.
pub fn string_of(v: &[char]) -> (s: String)
    ensures
        s@ == v@,
{
    let mut s = String::new();
    let mut i: usize = 0;
    while i < v.len()
        invariant
            i <= v.len(),
            s@ == v@.take(i as int),
        decreases v.len() - i,
    {
        s.push(v[i]);
        i = i + 1;
        assert(v@.take(i as int) == v@.take((i - 1) as int).push(v@[i - 1]));
    }
    assert(v@.take(v.len() as int) == v@);
    s
}


/// Unicode `White_Space` property (PropList.txt), which `char::is_whitespace` tests.
pub open spec fn is_white_space(c: char) -> bool {
    let u = c as u32;
    ||| 0x09 <= u <= 0x0d
    ||| u == 0x20
    ||| u == 0x85
    ||| u == 0xa0
    ||| u == 0x1680
    ||| 0x2000 <= u <= 0x200a
    ||| u == 0x2028
    ||| u == 0x2029
    ||| u == 0x202f
    ||| u == 0x205f
    ||| u == 0x3000
}

/// Whether `c` is white space, as `char::is_whitespace` answers.
pub fn is_whitespace(c: char) -> (b: bool)
    ensures
        b == is_white_space(c),
{
    let u = c as u32;
    (0x09 <= u && u <= 0x0d) || u == 0x20 || u == 0x85 || u == 0xa0 || u == 0x1680 || (0x2000
        <= u && u <= 0x200a) || u == 0x2028 || u == 0x2029 || u == 0x202f || u == 0x205f || u
        == 0x3000
}

/// `s` without its leading white space.
pub open spec fn trim_start(s: Seq<char>) -> Seq<char>
    decreases s.len(),
{
    if s.len() > 0 && is_white_space(s[0]) {
        trim_start(s.drop_first())
    } else {
        s
    }
}

/// `s` without its trailing white space.
pub open spec fn trim_end(s: Seq<char>) -> Seq<char>
    decreases s.len(),
{
    if s.len() > 0 && is_white_space(s.last()) {
        trim_end(s.drop_last())
    } else {
        s
    }
}

/// `s` without leading and trailing white space, as `str::trim` gives it.
pub open spec fn trim(s: Seq<char>) -> Seq<char> {
    trim_end(trim_start(s))
}

proof fn lemma_trim_start_skip(s: Seq<char>, i: int)
    requires
        0 <= i <= s.len(),
        forall|k: int| 0 <= k < i ==> is_white_space(#[trigger] s[k]),
        i == s.len() || !is_white_space(s[i]),
    ensures
        trim_start(s) == s.skip(i),
    decreases i,
{
    if i == 0 {
        assert(s.skip(0) == s);
    } else {
        let t = s.drop_first();
        assert forall|k: int| 0 <= k < i - 1 implies is_white_space(#[trigger] t[k]) by {
            assert(t[k] == s[k + 1]);
        }
        if i - 1 < t.len() {
            assert(t[i - 1] == s[i]);
        }
        lemma_trim_start_skip(t, i - 1);
        assert(t.skip(i - 1) == s.skip(i));
    }
}

pub(crate) proof fn lemma_trim_end_take(s: Seq<char>, j: int)
    requires
        0 <= j <= s.len(),
        forall|k: int| j <= k < s.len() ==> is_white_space(#[trigger] s[k]),
        j == 0 || !is_white_space(s[j - 1]),
    ensures
        trim_end(s) == s.take(j),
    decreases s.len() - j,
{
    if j == s.len() {
        assert(s.take(j) == s);
    } else {
        let t = s.drop_last();
        assert forall|k: int| j <= k < t.len() implies is_white_space(#[trigger] t[k]) by {
            assert(t[k] == s[k]);
        }
        if j > 0 {
            assert(t[j - 1] == s[j - 1]);
        }
        lemma_trim_end_take(t, j);
        assert(t.take(j) == s.take(j));
    }
}

/// The number of leading white-space characters of `v`.
pub fn trim_start_index(v: &[char]) -> (i: usize)
    ensures
        i <= v@.len(),
        trim_start(v@) == v@.skip(i as int),
        forall|k: int| 0 <= k < i ==> is_white_space(#[trigger] v@[k]),
        i == v@.len() || !is_white_space(v@[i as int]),
{
    let mut i: usize = 0;
    while i < v.len() && is_whitespace(v[i])
        invariant
            i <= v@.len(),
            forall|k: int| 0 <= k < i ==> is_white_space(#[trigger] v@[k]),
        decreases v.len() - i,
    {
        i = i + 1;
    }
    proof {
        lemma_trim_start_skip(v@, i as int);
    }
    i
}

/// The index of the first white-space character of `t` at or after `i`
/// (the length of `t` when there is none).
pub open spec fn word_end(t: Seq<char>, i: int) -> int
    decreases t.len() - i,
{
    if i < 0 || i >= t.len() || is_white_space(t[i]) {
        i
    } else {
        word_end(t, i + 1)
    }
}

/// The first white-space separated word of `s` (empty when there is none),
/// as `str::split_whitespace().next()` gives it.
pub open spec fn first_word(s: Seq<char>) -> Seq<char> {
    let t = trim_start(s);
    t.take(word_end(t, 0))
}

/// The first white-space separated word of `v`.
pub fn first_word_exec(v: &[char]) -> (r: Vec<char>)
    ensures
        r@ == first_word(v@),
{
    let i = trim_start_index(v);
    let ghost t = v@.skip(i as int);
    let mut j = i;
    while j < v.len() && !is_whitespace(v[j])
        invariant
            i <= j <= v@.len(),
            t == v@.skip(i as int),
            word_end(t, 0) == word_end(t, j - i),
        decreases v.len() - j,
    {
        assert(t[j - i] == v@[j as int]);
        j = j + 1;
    }
    if j < v.len() {
        assert(t[j - i] == v@[j as int]);
    }
    assert(word_end(t, j - i) == j - i);
    assert(t.take(j - i) =~= v@.subrange(i as int, j as int));
    slice_chars(v, i, j)
}

/// What follows the first white-space separated word of `s`.
pub open spec fn after_first_word(s: Seq<char>) -> Seq<char> {
    let t = trim_start(s);
    t.skip(word_end(t, 0))
}

/// The first word of `v` and what follows it.
pub fn split_first_word(v: &[char]) -> (r: (Vec<char>, Vec<char>))
    ensures
        r.0@ == first_word(v@),
        r.1@ == after_first_word(v@),
{
    let i = trim_start_index(v);
    let ghost t = v@.skip(i as int);
    let mut j = i;
    while j < v.len() && !is_whitespace(v[j])
        invariant
            i <= j <= v@.len(),
            t == v@.skip(i as int),
            word_end(t, 0) == word_end(t, j - i),
        decreases v.len() - j,
    {
        assert(t[j - i] == v@[j as int]);
        j = j + 1;
    }
    if j < v.len() {
        assert(t[j - i] == v@[j as int]);
    }
    assert(word_end(t, j - i) == j - i);
    assert(t.take(j - i) =~= v@.subrange(i as int, j as int));
    assert(t.skip(j - i) =~= v@.subrange(j as int, v@.len() as int));
    (slice_chars(v, i, j), slice_chars(v, j, v.len()))
}

/// What `str::to_lowercase` gives for a string: Unicode lower-case mapping.
pub uninterp spec fn lowercase(s: Seq<char>) -> Seq<char>;

/// `str::to_lowercase`: the Unicode lower-case form of `s`.
#[verifier::external_body]
pub(crate) fn to_lowercase(s: &str) -> (r: String)
    ensures
        r@ == lowercase(s@),
{
    s.to_lowercase()
}

/// The lower-case form of a character sequence, as characters.
pub fn lowercase_chars(v: &[char]) -> (r: Vec<char>)
    ensures
        r@ == lowercase(v@),
{
    let s = string_of(v);
    let l = to_lowercase(s.as_str());
    chars_of(l.as_str())
}

/// The bounds `(start, end)` of `trim(v)` inside `v`.
pub fn trim_bounds(v: &[char]) -> (r: (usize, usize))
    ensures
        r.0 <= r.1 <= v@.len(),
        trim(v@) == v@.subrange(r.0 as int, r.1 as int),
{
    let i = trim_start_index(v);
    let ghost t = v@.skip(i as int);
    let mut j: usize = v.len();
    while j > i && is_whitespace(v[j - 1])
        invariant
            i <= j <= v.len(),
            forall|k: int| j <= k < v.len() ==> is_white_space(#[trigger] v@[k]),
        decreases j,
    {
        j = j - 1;
    }
    proof {
        assert forall|k: int| (j - i) <= k < t.len() implies is_white_space(#[trigger] t[k]) by {
            assert(t[k] == v@[k + i]);
        }
        if j > i {
            assert(t[j - i - 1] == v@[j - 1]);
        }
        lemma_trim_end_take(t, (j - i) as int);
        assert(t.take((j - i) as int) == v@.subrange(i as int, j as int));
    }
    (i, j)
}

/// `trim(v)` as a new vector.
pub fn trim_chars(v: &[char]) -> (r: Vec<char>)
    ensures
        r@ == trim(v@),
{
    let (a, b) = trim_bounds(v);
    slice_chars(v, a, b)
}

/// The characters `v[from..to]`.
pub fn slice_chars(v: &[char], from: usize, to: usize) -> (r: Vec<char>)
    requires
        from <= to <= v@.len(),
    ensures
        r@ == v@.subrange(from as int, to as int),
{
    let mut r: Vec<char> = Vec::new();
    let mut i = from;
    while i < to
        invariant
            from <= i <= to <= v@.len(),
            r@ == v@.subrange(from as int, i as int),
        decreases to - i,
    {
        r.push(v[i]);
        i = i + 1;
        assert(r@ == v@.subrange(from as int, i as int));
    }
    r
}

/// Whether `p` occurs in `s` starting at index `i`.
pub open spec fn matches_at(s: Seq<char>, p: Seq<char>, i: int) -> bool {
    0 <= i && i + p.len() <= s.len() && s.subrange(i, i + p.len()) == p
}

/// Whether `s` starts with `p`.
pub open spec fn starts_with(s: Seq<char>, p: Seq<char>) -> bool {
    matches_at(s, p, 0)
}

/// Whether `p` occurs anywhere in `s`.
pub open spec fn contains(s: Seq<char>, p: Seq<char>) -> bool {
    exists|i: int| matches_at(s, p, i)
}

/// The first index `>= i` at which `p` occurs in `s`.
pub open spec fn find_from(s: Seq<char>, p: Seq<char>, i: int) -> Option<int>
    decreases s.len() + 1 - i,
{
    if i < 0 || i + p.len() > s.len() {
        None
    } else if matches_at(s, p, i) {
        Some(i)
    } else {
        find_from(s, p, i + 1)
    }
}

/// The first index at which `p` occurs in `s`, as `str::find` gives it.
pub open spec fn find(s: Seq<char>, p: Seq<char>) -> Option<int> {
    find_from(s, p, 0)
}

/// What `find_from` returns is a match at or after `i`, with none before it.
pub proof fn lemma_find_from(s: Seq<char>, p: Seq<char>, i: int)
    requires
        0 <= i,
    ensures
        find_from(s, p, i) matches Some(k) ==> i <= k && matches_at(s, p, k) && forall|j: int|
            i <= j < k ==> !matches_at(s, p, j),
        find_from(s, p, i) is None ==> forall|j: int| i <= j ==> !matches_at(s, p, j),
    decreases s.len() + 1 - i,
{
    if i + p.len() > s.len() {
    } else if matches_at(s, p, i) {
    } else {
        lemma_find_from(s, p, i + 1);
        if find_from(s, p, i + 1) is None {
            assert forall|j: int| i <= j implies !matches_at(s, p, j) by {
                if j > i {
                }
            }
        }
    }
}

/// `contains` holds exactly when `find` succeeds.
pub proof fn lemma_contains_find(s: Seq<char>, p: Seq<char>)
    ensures
        contains(s, p) <==> find(s, p) is Some,
{
    lemma_find_from(s, p, 0);
    if find(s, p) is Some {
        assert(matches_at(s, p, find(s, p)->0));
    }
}

/// Whether `p` occurs in `v` at index `i`.
pub fn matches_at_exec(v: &[char], p: &[char], i: usize) -> (b: bool)
    ensures
        b == matches_at(v@, p@, i as int),
{
    if i > v.len() || p.len() > v.len() - i {
        return false;
    }
    let mut k: usize = 0;
    while k < p.len()
        invariant
            i + p@.len() <= v@.len(),
            v@.len() == v.len(),
            k <= p@.len(),
            v@.subrange(i as int, i + k) == p@.take(k as int),
        decreases p.len() - k,
    {
        if v[i + k] != p[k] {
            assert(v@.subrange(i as int, i + p@.len())[k as int] == v@[i + k]);
            return false;
        }
        k = k + 1;
        assert(v@.subrange(i as int, i + k) == p@.take(k as int));
    }
    assert(p@.take(p@.len() as int) == p@);
    true
}

/// `find_from` computed.
pub fn find_from_exec(v: &[char], p: &[char], start: usize) -> (r: Option<usize>)
    ensures
        match r {
            Some(k) => find_from(v@, p@, start as int) == Some(k as int),
            None => find_from(v@, p@, start as int) is None,
        },
{
    if start > v.len() {
        return None;
    }
    let mut i = start;
    while i < v.len()
        invariant
            start <= i <= v@.len(),
            v@.len() == v.len(),
            find_from(v@, p@, start as int) == find_from(v@, p@, i as int),
        decreases v.len() - i,
    {
        if p.len() > v.len() - i {
            return None;
        }
        if matches_at_exec(v, p, i) {
            return Some(i);
        }
        i = i + 1;
    }
    if matches_at_exec(v, p, i) {
        assert(find_from(v@, p@, i as int) == Some(i as int));
        Some(i)
    } else {
        if p.len() == 0 {
            assert(v@.subrange(i as int, i as int) =~= p@);
        }
        assert(find_from(v@, p@, i as int) is None);
        None
    }
}

/// Whether `p` occurs in `v`.
pub fn contains_exec(v: &[char], p: &[char]) -> (b: bool)
    ensures
        b == contains(v@, p@),
{
    proof {
        lemma_contains_find(v@, p@);
    }
    find_from_exec(v, p, 0).is_some()
}

/// Whether `v` starts with `p`.
pub fn starts_with_exec(v: &[char], p: &[char]) -> (b: bool)
    ensures
        b == starts_with(v@, p@),
{
    matches_at_exec(v, p, 0)
}


/// Whether two character sequences are equal.
pub fn chars_eq(a: &[char], b: &[char]) -> (r: bool)
    ensures
        r == (a@ == b@),
{
    if a.len() != b.len() {
        return false;
    }
    let mut i: usize = 0;
    while i < a.len()
        invariant
            a@.len() == b@.len(),
            i <= a@.len(),
            forall|k: int| 0 <= k < i ==> a@[k] == b@[k],
        decreases a.len() - i,
    {
        if a[i] != b[i] {
            return false;
        }
        i = i + 1;
    }
    assert(a@ =~= b@);
    true
}

/// `a` followed by `b`.
pub fn concat_chars(a: &[char], b: &[char]) -> (r: Vec<char>)
    ensures
        r@ == a@ + b@,
{
    let mut r = slice_chars(a, 0, a.len());
    assert(a@.subrange(0, a@.len() as int) == a@);
    let mut i: usize = 0;
    while i < b.len()
        invariant
            i <= b@.len(),
            r@ == a@ + b@.take(i as int),
        decreases b.len() - i,
    {
        r.push(b[i]);
        i = i + 1;
        assert(r@ =~= a@ + b@.take(i as int));
    }
    assert(b@.take(b@.len() as int) == b@);
    r
}


/// Whether `v` holds exactly the characters of `s`.
pub fn eq_lit(v: &[char], s: &str) -> (b: bool)
    ensures
        b == (v@ == s@),
{
    chars_eq(v, &chars_of(s))
}

/// Whether `c` is an ASCII letter or digit, as `char::is_ascii_alphanumeric` answers.
pub open spec fn is_ascii_alnum(c: char) -> bool {
    ('0' <= c <= '9') || ('a' <= c <= 'z') || ('A' <= c <= 'Z')
}

/// `char::is_ascii_alphanumeric`.
pub fn is_ascii_alnum_exec(c: char) -> (b: bool)
    ensures
        b == is_ascii_alnum(c),
{
    ('0' <= c && c <= '9') || ('a' <= c && c <= 'z') || ('A' <= c && c <= 'Z')
}


/// `a` followed by `b`, as a new string.
pub fn concat_str(a: &str, b: &str) -> (r: String)
    ensures
        r@ == a@ + b@,
{
    string_of(&concat_chars(&chars_of(a), &chars_of(b)))
}


/// The digit character for `d` in base 16 (lower case), as `{:x}` writes it.
pub open spec fn digit_char(d: nat) -> char {
    if d < 10 {
        (('0' as u32) + d) as char
    } else {
        (('a' as u32) + (d - 10)) as char
    }
}

/// The digits of `n` in base `b` (2 to 16), most significant first, with no
/// leading zeros (`0` is a single digit).
pub open spec fn digits(n: nat, b: nat) -> Seq<char>
    decreases n,
{
    if b < 2 || n < b {
        seq![digit_char(n)]
    } else {
        proof {
            assert(n / b < n) by (nonlinear_arith)
                requires
                    n >= b,
                    b >= 2,
            ;
        }
        digits(n / b, b).push(digit_char(n % b))
    }
}

/// `s` padded on the left with `'0'` to at least `w` characters, as
/// `{:0w}` writes a number.
pub open spec fn zero_pad(s: Seq<char>, w: nat) -> Seq<char> {
    if s.len() >= w {
        s
    } else {
        Seq::new((w - s.len()) as nat, |i: int| '0') + s
    }
}

fn digit_exec(d: u64) -> (c: char)
    requires
        d < 16,
    ensures
        c == digit_char(d as nat),
{
    if d < 10 {
        let b: u8 = 48 + d as u8;
        b as char
    } else {
        let b: u8 = 87 + d as u8;
        b as char
    }
}

/// The digits of `n` in base `b`, as `{}` (base 10) or `{:x}` (base 16) write them.
pub fn digits_exec(n: u64, b: u64) -> (r: Vec<char>)
    requires
        2 <= b <= 16,
    ensures
        r@ == digits(n as nat, b as nat),
    decreases n,
{
    if n < b {
        let mut r = Vec::new();
        r.push(digit_exec(n));
        r
    } else {
        assert(n / b < n) by (nonlinear_arith)
            requires
                n >= b,
                b >= 2,
        ;
        let mut r = digits_exec(n / b, b);
        r.push(digit_exec(n % b));
        r
    }
}

/// `v` padded on the left with `'0'` to at least `w` characters.
pub fn zero_pad_exec(v: &[char], w: usize) -> (r: Vec<char>)
    ensures
        r@ == zero_pad(v@, w as nat),
{
    if v.len() >= w {
        return slice_chars(v, 0, v.len());
    }
    let mut r: Vec<char> = Vec::new();
    let mut i: usize = 0;
    while i < w - v.len()
        invariant
            v@.len() < w,
            i <= w - v@.len(),
            r@ == Seq::new(i as nat, |k: int| '0'),
        decreases w - v.len() - i,
    {
        r.push('0');
        i = i + 1;
        assert(r@ =~= Seq::new(i as nat, |k: int| '0'));
    }
    concat_chars(&r, v)
}


/// A match at `j`, with none from `i` up to it, is what `find_from` returns.
pub proof fn lemma_find_from_first(s: Seq<char>, p: Seq<char>, i: int, j: int)
    requires
        0 <= i <= j,
        matches_at(s, p, j),
        forall|k: int| i <= k < j ==> !matches_at(s, p, k),
    ensures
        find_from(s, p, i) == Some(j),
    decreases j - i,
{
    if i < j {
        lemma_find_from_first(s, p, i + 1, j);
    }
}

/// The pieces of `s` between the occurrences of `sep`, as `str::split`
/// with a character gives them (an empty string gives one empty piece).
pub open spec fn split_on(s: Seq<char>, sep: char) -> Seq<Seq<char>>
    decreases s.len(),
{
    match find(s, seq![sep]) {
        Some(i) => {
            proof {
                lemma_find_from(s, seq![sep], 0);
            }
            seq![s.take(i)] + split_on(s.skip(i + 1), sep)
        },
        None => seq![s],
    }
}

/// The pieces joined with `sep` between them, as `[String]::join` gives it.
pub open spec fn join(parts: Seq<Seq<char>>, sep: Seq<char>) -> Seq<char>
    decreases parts.len(),
{
    if parts.len() == 0 {
        Seq::empty()
    } else if parts.len() == 1 {
        parts[0]
    } else {
        join(parts.drop_last(), sep) + sep + parts.last()
    }
}

proof fn lemma_single_char_match(s: Seq<char>, c: char, k: int)
    requires
        0 <= k < s.len(),
    ensures
        matches_at(s, seq![c], k) <==> s[k] == c,
{
    if s[k] == c {
        assert(s.subrange(k, k + 1) =~= seq![c]);
    }
    if matches_at(s, seq![c], k) {
        assert(s.subrange(k, k + 1)[0] == s[k]);
    }
}

/// The pieces of `v` between the occurrences of `sep`.
pub fn split_exec(v: &[char], sep: char) -> (r: Vec<Vec<char>>)
    ensures
        r@.map_values(|x: Vec<char>| x@) == split_on(v@, sep),
{
    let mut out: Vec<Vec<char>> = Vec::new();
    let mut start: usize = 0;
    let mut i: usize = 0;
    assert(v@.skip(0) =~= v@);
    assert(out@.map_values(|x: Vec<char>| x@) + split_on(v@, sep) =~= split_on(v@, sep));
    while i < v.len()
        invariant
            start <= i <= v@.len(),
            split_on(v@, sep) == out@.map_values(|x: Vec<char>| x@) + split_on(
                v@.skip(start as int),
                sep,
            ),
            forall|k: int| start <= k < i ==> v@[k] != sep,
        decreases v.len() - i,
    {
        if v[i] == sep {
            let ghost t = v@.skip(start as int);
            proof {
                assert forall|k: int| 0 <= k < i - start implies !matches_at(t, seq![sep], k) by {
                    lemma_single_char_match(t, sep, k);
                    assert(t[k] == v@[start + k]);
                }
                lemma_single_char_match(t, sep, i - start);
                lemma_find_from_first(t, seq![sep], 0, i - start);
                assert(t.take(i - start) =~= v@.subrange(start as int, i as int));
                assert(t.skip(i - start + 1) =~= v@.skip(i + 1));
            }
            let seg = slice_chars(v, start, i);
            let ghost old_out = out@;
            out.push(seg);
            assert(out@.map_values(|x: Vec<char>| x@) =~= old_out.map_values(|x: Vec<char>| x@).push(
                seg@,
            ));
            start = i + 1;
        }
        i = i + 1;
    }
    let ghost t = v@.skip(start as int);
    proof {
        lemma_find_from(t, seq![sep], 0);
        if find(t, seq![sep]) is Some {
            let k = find(t, seq![sep])->0;
            lemma_single_char_match(t, sep, k);
            assert(t[k] == v@[start + k]);
        }
    }
    let seg = slice_chars(v, start, v.len());
    let ghost old_out = out@;
    out.push(seg);
    assert(t =~= seg@);
    assert(out@.map_values(|x: Vec<char>| x@) =~= old_out.map_values(|x: Vec<char>| x@) + seq![t]);
    out
}

/// The pieces joined with `sep` between them.
pub fn join_exec(parts: &Vec<Vec<char>>, sep: &[char]) -> (r: Vec<char>)
    ensures
        r@ == join(parts@.map_values(|x: Vec<char>| x@), sep@),
{
    let ghost pv = parts@.map_values(|x: Vec<char>| x@);
    let mut r: Vec<char> = Vec::new();
    let mut i: usize = 0;
    while i < parts.len()
        invariant
            i <= parts@.len(),
            pv == parts@.map_values(|x: Vec<char>| x@),
            r@ == join(pv.take(i as int), sep@),
        decreases parts.len() - i,
    {
        assert(pv.take(i + 1).drop_last() =~= pv.take(i as int));
        if i == 0 {
            r = slice_chars(&parts[0], 0, parts[0].len());
            assert(parts[0]@.subrange(0, parts[0]@.len() as int) =~= pv.take(1)[0]);
        } else {
            r = concat_chars(&r, sep);
            r = concat_chars(&r, &parts[i]);
        }
        i = i + 1;
    }
    assert(pv.take(parts@.len() as int) =~= pv);
    r
}


/// Trimming twice is trimming once.
pub proof fn lemma_trim_idempotent(s: Seq<char>)
    ensures
        trim(trim(s)) == trim(s),
{
    let t = trim(s);
    lemma_trim_shape(s);
    if t.len() > 0 {
        lemma_trim_start_skip(t, 0);
        assert(t.skip(0) =~= t);
        lemma_trim_end_take(t, t.len() as int);
        assert(t.take(t.len() as int) =~= t);
    } else {
        assert(trim_start(t) == t);
    }
}

/// A trimmed text neither starts nor ends with white space.
pub proof fn lemma_trim_shape(s: Seq<char>)
    ensures
        trim(s).len() > 0 ==> !is_white_space(trim(s)[0]) && !is_white_space(trim(s).last()),
    decreases s.len(),
{
    lemma_trim_start_shape(s);
    lemma_trim_end_shape(trim_start(s));
}

proof fn lemma_trim_start_shape(s: Seq<char>)
    ensures
        trim_start(s).len() > 0 ==> !is_white_space(trim_start(s)[0]),
        trim_start(s).len() <= s.len(),
    decreases s.len(),
{
    if s.len() > 0 && is_white_space(s[0]) {
        lemma_trim_start_shape(s.drop_first());
    }
}

proof fn lemma_trim_end_shape(s: Seq<char>)
    ensures
        trim_end(s).len() > 0 ==> !is_white_space(trim_end(s).last()),
        trim_end(s).len() > 0 ==> trim_end(s)[0] == s[0],
        trim_end(s).len() <= s.len(),
    decreases s.len(),
{
    if s.len() > 0 && is_white_space(s.last()) {
        lemma_trim_end_shape(s.drop_last());
    }
}

/// No piece of a split holds the separator.
pub proof fn lemma_split_pieces(s: Seq<char>, sep: char)
    ensures
        split_on(s, sep).len() >= 1,
        forall|i: int, k: int|
            0 <= i < split_on(s, sep).len() && 0 <= k < split_on(s, sep)[i].len() ==> split_on(
                s,
                sep,
            )[i][k] != sep,
    decreases s.len(),
{
    lemma_find_from(s, seq![sep], 0);
    match find(s, seq![sep]) {
        Some(j) => {
            lemma_split_pieces(s.skip(j + 1), sep);
            assert forall|k: int| 0 <= k < j implies s[k] != sep by {
                lemma_single_char_match(s, sep, k);
            }
            let parts = split_on(s, sep);
            assert forall|i: int, k: int|
                0 <= i < parts.len() && 0 <= k < parts[i].len() implies parts[i][k] != sep by {
                if i > 0 {
                    assert(parts[i] == split_on(s.skip(j + 1), sep)[i - 1]);
                }
            }
        },
        None => {
            assert forall|k: int| 0 <= k < s.len() implies s[k] != sep by {
                lemma_single_char_match(s, sep, k);
            }
        },
    }
}

/// A text without the separator is a single piece.
pub proof fn lemma_split_none(s: Seq<char>, sep: char)
    requires
        forall|k: int| 0 <= k < s.len() ==> s[k] != sep,
    ensures
        split_on(s, sep) == seq![s],
{
    lemma_find_from(s, seq![sep], 0);
    if find(s, seq![sep]) is Some {
        let j = find(s, seq![sep])->0;
        lemma_single_char_match(s, sep, j);
    }
}

/// Splitting at a separator that follows a piece without it.
pub proof fn lemma_split_concat(x: Seq<char>, sep: char, y: Seq<char>)
    requires
        forall|k: int| 0 <= k < x.len() ==> x[k] != sep,
    ensures
        split_on(x + seq![sep] + y, sep) == seq![x] + split_on(y, sep),
{
    let s = x + seq![sep] + y;
    assert forall|k: int| 0 <= k < x.len() implies !matches_at(s, seq![sep], k) by {
        lemma_single_char_match(s, sep, k);
    }
    lemma_single_char_match(s, sep, x.len() as int);
    lemma_find_from_first(s, seq![sep], 0, x.len() as int);
    assert(s.take(x.len() as int) =~= x);
    assert(s.skip(x.len() as int + 1) =~= y);
}

/// Splitting what was joined with a separator that no piece holds gives
/// the pieces back.
pub proof fn lemma_split_join(parts: Seq<Seq<char>>, sep: char)
    requires
        parts.len() >= 1,
        forall|i: int, k: int| 0 <= i < parts.len() && 0 <= k < parts[i].len() ==> parts[i][k] != sep,
    ensures
        split_on(join(parts, seq![sep]), sep) == parts,
    decreases parts.len(),
{
    if parts.len() == 1 {
        lemma_split_none(parts[0], sep);
        assert(seq![parts[0]] =~= parts);
    } else {
        let init = parts.drop_last();
        lemma_split_join_right(init, sep, parts.last());
        assert(init.push(parts.last()) =~= parts);
    }
}

proof fn lemma_split_join_right(init: Seq<Seq<char>>, sep: char, last: Seq<char>)
    requires
        init.len() >= 1,
        forall|i: int, k: int| 0 <= i < init.len() && 0 <= k < init[i].len() ==> init[i][k] != sep,
        forall|k: int| 0 <= k < last.len() ==> last[k] != sep,
    ensures
        split_on(join(init.push(last), seq![sep]), sep) == init.push(last),
    decreases init.len(),
{
    let parts = init.push(last);
    assert(parts.drop_last() =~= init);
    if init.len() == 1 {
        assert(join(init, seq![sep]) == init[0]);
        lemma_split_concat(init[0], sep, last);
        lemma_split_none(last, sep);
        assert(seq![init[0]] + seq![last] =~= parts);
    } else {
        // join(init ++ [last]) = join(init) + sep + last, and join(init) =
        // init[0] + sep + join(init.drop_first())
        let rest = init.drop_first();
        lemma_join_first(init, seq![sep]);
        lemma_join_first(parts, seq![sep]);
        assert(parts.drop_first() =~= rest.push(last));
        lemma_split_join_right(rest, sep, last);
        lemma_split_concat(init[0], sep, join(rest.push(last), seq![sep]));
        assert(seq![init[0]] + rest.push(last) =~= parts);
    }
}

/// Joining splits off its first piece.
pub proof fn lemma_join_first(parts: Seq<Seq<char>>, sep: Seq<char>)
    requires
        parts.len() >= 2,
    ensures
        join(parts, sep) == parts[0] + sep + join(parts.drop_first(), sep),
    decreases parts.len(),
{
    if parts.len() == 2 {
        assert(parts.drop_last() =~= seq![parts[0]]);
        assert(parts.drop_first() =~= seq![parts[1]]);
        assert(join(parts.drop_last(), sep) == parts[0]);
        assert(join(parts.drop_first(), sep) == parts[1]);
    } else {
        let init = parts.drop_last();
        lemma_join_first(init, sep);
        assert(init.drop_first() =~= parts.drop_first().drop_last());
        assert(parts.drop_first().last() == parts.last());
        assert(join(parts.drop_first(), sep) == join(init.drop_first(), sep) + sep + parts.last());
        assert(join(parts, sep) == join(init, sep) + sep + parts.last());
        assert(parts[0] + sep + join(init.drop_first(), sep) + sep + parts.last() =~= parts[0] + sep
            + (join(init.drop_first(), sep) + sep + parts.last()));
    }
}


/// Splitting around one more separator splits each side.
pub proof fn lemma_split_append(x: Seq<char>, sep: char, y: Seq<char>)
    ensures
        split_on(x + seq![sep] + y, sep) == split_on(x, sep) + split_on(y, sep),
    decreases x.len(),
{
    lemma_find_from(x, seq![sep], 0);
    match find(x, seq![sep]) {
        None => {
            assert forall|k: int| 0 <= k < x.len() implies x[k] != sep by {
                lemma_single_char_match(x, sep, k);
            }
            lemma_split_concat(x, sep, y);
            lemma_split_none(x, sep);
        },
        Some(j) => {
            let a = x.take(j);
            let b = x.skip(j + 1);
            assert forall|k: int| 0 <= k < a.len() implies a[k] != sep by {
                lemma_single_char_match(x, sep, k);
            }
            lemma_single_char_match(x, sep, j);
            assert(x =~= a + seq![sep] + b);
            lemma_split_concat(a, sep, b + seq![sep] + y);
            assert(x + seq![sep] + y =~= a + seq![sep] + (b + seq![sep] + y));
            lemma_split_append(b, sep, y);
            lemma_split_concat(a, sep, b);
            assert(seq![a] + (split_on(b, sep) + split_on(y, sep)) =~= (seq![a] + split_on(b, sep))
                + split_on(y, sep));
        },
    }
}


/// A trimmed text is a piece of the text.
pub proof fn lemma_trim_sub(s: Seq<char>)
    ensures
        exists|i: int, j: int| 0 <= i <= j <= s.len() && trim(s) == s.subrange(i, j),
{
    let (i, t) = lemma_trim_start_sub(s);
    let j = lemma_trim_end_sub(t);
    assert(trim(s) == s.subrange(i, i + j));
}

proof fn lemma_trim_start_sub(s: Seq<char>) -> (r: (int, Seq<char>))
    ensures
        0 <= r.0 <= s.len(),
        r.1 == trim_start(s),
        r.1 == s.skip(r.0),
    decreases s.len(),
{
    if s.len() > 0 && is_white_space(s[0]) {
        let (i, t) = lemma_trim_start_sub(s.drop_first());
        assert(s.drop_first().skip(i) =~= s.skip(i + 1));
        (i + 1, t)
    } else {
        assert(s.skip(0) =~= s);
        (0, s)
    }
}

proof fn lemma_trim_end_sub(s: Seq<char>) -> (j: int)
    ensures
        0 <= j <= s.len(),
        trim_end(s) == s.take(j),
    decreases s.len(),
{
    if s.len() > 0 && is_white_space(s.last()) {
        let j = lemma_trim_end_sub(s.drop_last());
        assert(s.drop_last().take(j) =~= s.take(j));
        j
    } else {
        assert(s.take(s.len() as int) =~= s);
        s.len() as int
    }
}

/// A text that neither starts nor ends with white space is its own trim.
pub proof fn lemma_trim_noop(s: Seq<char>)
    requires
        s.len() > 0,
        !is_white_space(s[0]),
        !is_white_space(s.last()),
    ensures
        trim(s) == s,
{
    lemma_trim_start_skip(s, 0);
    assert(s.skip(0) =~= s);
    lemma_trim_end_take(s, s.len() as int);
    assert(s.take(s.len() as int) =~= s);
}

/// A joined text is at least as long as each piece.
pub proof fn lemma_join_len(parts: Seq<Seq<char>>, sep: Seq<char>, i: int)
    requires
        0 <= i < parts.len(),
    ensures
        join(parts, sep).len() >= parts[i].len(),
    decreases parts.len(),
{
    if parts.len() > 1 && i < parts.len() - 1 {
        lemma_join_len(parts.drop_last(), sep, i);
    }
}

} // verus!
