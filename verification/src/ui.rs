//! How a finished reply is cut into prose and fenced code blocks for display.
use vstd::prelude::*;
use vstd::string::StrSliceExecFns;
use crate::text::{chars_of, contains, find_from, find_from_exec, lemma_find_from, lemma_find_from_first, matches_at, slice_chars, trim, trim_bounds};

verus! {

/// A piece of a reply: prose, or a fenced code block with its language tag.
pub enum Part<'a> {
    /// Prose between code blocks.
    Text(&'a str),
    /// A fenced code block.
    Code { lang: &'a str, code: &'a str },
}

/// A piece of a reply, over mathematical values.
pub enum PartModel {
    Text(Seq<char>),
    Code { lang: Seq<char>, code: Seq<char> },
}

/// The value of a piece.
pub open spec fn part_model(p: Part) -> PartModel {
    match p {
        Part::Text(t) => PartModel::Text(t@),
        Part::Code { lang, code } => PartModel::Code { lang: lang@, code: code@ },
    }
}

/// The values of pieces.
pub open spec fn parts_model(v: Seq<Part>) -> Seq<PartModel> {
    v.map_values(|p: Part| part_model(p))
}

/// The code fence.
pub open spec fn fence() -> Seq<char> {
    seq!['`', '`', '`']
}

/// The pieces of `t` from index `pos` on. Prose runs up to the next fence;
/// after a fence the rest of its line, trimmed, is the language tag and the
/// code runs from the next line up to the closing fence (or the end of the
/// text). A newline right after a closing fence is dropped.
pub open spec fn blocks_from(t: Seq<char>, pos: int) -> Seq<PartModel>
    decreases t.len() - pos,
{
    if pos < 0 || pos >= t.len() {
        seq![]
    } else {
        match find_from(t, fence(), pos) {
            None => seq![PartModel::Text(t.subrange(pos, t.len() as int))],
            Some(f) => {
                proof {
                    lemma_find_from(t, fence(), pos);
                }
                let pre = if f > pos {
                    seq![PartModel::Text(t.subrange(pos, f))]
                } else {
                    seq![]
                };
                let after = f + 3;
                let nl = match find_from(t, seq!['\n'], after) {
                    Some(i) => i,
                    None => t.len() as int,
                };
                let lang = trim(t.subrange(after, nl));
                let cs = if nl < t.len() {
                    nl + 1
                } else {
                    t.len() as int
                };
                match find_from(t, fence(), cs) {
                    Some(close) => {
                        proof {
                            lemma_find_from(t, seq!['\n'], after);
                            lemma_find_from(t, fence(), cs);
                        }
                        let p = close + 3;
                        let next = if p < t.len() && t[p] == '\n' {
                            p + 1
                        } else {
                            p
                        };
                        pre + seq![PartModel::Code { lang, code: t.subrange(cs, close) }]
                            + blocks_from(t, next)
                    },
                    None => pre + seq![
                        PartModel::Code { lang, code: t.subrange(cs, t.len() as int) },
                    ],
                }
            },
        }
    }
}

/// The pieces of a whole reply.
pub open spec fn code_blocks(t: Seq<char>) -> Seq<PartModel> {
    blocks_from(t, 0)
}

/// Cut `text` into prose and fenced code blocks, in order.
pub fn split_code_blocks(text: &str) -> (r: Vec<Part<'_>>)
    ensures
        parts_model(r@) == code_blocks(text@),
{
    let v = chars_of(text);
    let fence_v: Vec<char> = vec!['`', '`', '`'];
    let nl_v: Vec<char> = vec!['\n'];
    assert(fence_v@ =~= fence());
    assert(nl_v@ =~= seq!['\n']);
    let mut parts: Vec<Part> = Vec::new();
    let mut pos: usize = 0;
    while pos < v.len()
        invariant
            v@ == text@,
            fence_v@ == fence(),
            nl_v@ == seq!['\n'],
            pos <= v@.len(),
            parts_model(parts@) + blocks_from(v@, pos as int) == code_blocks(v@),
        decreases v.len() - pos,
    {
        let ghost before = parts@;
        let ghost rest = blocks_from(v@, pos as int);
        match find_from_exec(&v, &fence_v, pos) {
            None => {
                parts.push(Part::Text(text.substring_char(pos, v.len())));
                assert(parts_model(parts@) =~= parts_model(before) + rest);
                pos = v.len();
            },
            Some(f) => {
                proof {
                    lemma_find_from(v@, fence(), pos as int);
                }
                if f > pos {
                    parts.push(Part::Text(text.substring_char(pos, f)));
                }
                let ghost mid = parts@;
                let after = f + 3;
                let nl = match find_from_exec(&v, &nl_v, after) {
                    Some(i) => i,
                    None => v.len(),
                };
                proof {
                    lemma_find_from(v@, seq!['\n'], after as int);
                }
                let seg = slice_chars(&v, after, nl);
                let (a, b) = trim_bounds(&seg);
                assert(seg@.subrange(a as int, b as int) =~= v@.subrange(after + a, after + b));
                let lang = text.substring_char(after + a, after + b);
                let cs = if nl < v.len() {
                    nl + 1
                } else {
                    v.len()
                };
                match find_from_exec(&v, &fence_v, cs) {
                    Some(close) => {
                        proof {
                            lemma_find_from(v@, fence(), cs as int);
                        }
                        parts.push(Part::Code { lang, code: text.substring_char(cs, close) });
                        let p = close + 3;
                        let next = if p < v.len() && v[p] == '\n' {
                            p + 1
                        } else {
                            p
                        };
                        assert(parts_model(parts@) + blocks_from(v@, next as int) =~= parts_model(
                            before,
                        ) + rest);
                        pos = next;
                    },
                    None => {
                        parts.push(Part::Code { lang, code: text.substring_char(cs, v.len()) });
                        assert(parts_model(parts@) =~= parts_model(before) + rest);
                        pos = v.len();
                    },
                }
            },
        }
    }
    assert(parts_model(parts@) + blocks_from(v@, pos as int) =~= parts_model(parts@));
    parts
}

/// Whether a piece is prose without a code fence in it (code pieces always pass).
pub open spec fn prose_ok(p: PartModel) -> bool {
    match p {
        PartModel::Text(x) => !contains(x, fence()),
        PartModel::Code { .. } => true,
    }
}

/// Whether no prose piece holds a code fence.
pub open spec fn prose_without_fences(parts: Seq<PartModel>) -> bool {
    forall|i: int| 0 <= i < parts.len() ==> prose_ok(#[trigger] parts[i])
}

proof fn lemma_sub_no_fence(t: Seq<char>, a: int, b: int)
    requires
        0 <= a <= b <= t.len(),
        forall|j: int| a <= j && j + 3 <= b ==> !matches_at(t, fence(), j),
    ensures
        !contains(t.subrange(a, b), fence()),
{
    let sub = t.subrange(a, b);
    assert forall|k: int| !matches_at(sub, fence(), k) by {
        if matches_at(sub, fence(), k) {
            assert(t.subrange(a + k, a + k + 3) =~= sub.subrange(k, k + 3));
            assert(matches_at(t, fence(), a + k));
        }
    }
}

proof fn lemma_concat_prose(a: Seq<PartModel>, b: Seq<PartModel>)
    requires
        prose_without_fences(a),
        prose_without_fences(b),
    ensures
        prose_without_fences(a + b),
{
    assert forall|i: int| 0 <= i < (a + b).len() implies prose_ok(#[trigger] (a + b)[i]) by {
        if i < a.len() {
            assert((a + b)[i] == a[i]);
        } else {
            assert((a + b)[i] == b[i - a.len()]);
        }
    }
}

proof fn lemma_blocks_prose(t: Seq<char>, pos: int)
    ensures
        prose_without_fences(blocks_from(t, pos)),
    decreases t.len() - pos,
{
    if pos < 0 || pos >= t.len() {
    } else {
        lemma_find_from(t, fence(), pos);
        match find_from(t, fence(), pos) {
            None => {
                lemma_sub_no_fence(t, pos, t.len() as int);
                let r = seq![PartModel::Text(t.subrange(pos, t.len() as int))];
                assert(prose_ok(r[0]));
            },
            Some(f) => {
                let pre = if f > pos {
                    seq![PartModel::Text(t.subrange(pos, f))]
                } else {
                    seq![]
                };
                if f > pos {
                    lemma_sub_no_fence(t, pos, f);
                    assert(prose_ok(pre[0]));
                }
                assert(prose_without_fences(pre));
                let after = f + 3;
                lemma_find_from(t, seq!['\n'], after);
                let nl = match find_from(t, seq!['\n'], after) {
                    Some(i) => i,
                    None => t.len() as int,
                };
                let lang = trim(t.subrange(after, nl));
                let cs = if nl < t.len() {
                    nl + 1
                } else {
                    t.len() as int
                };
                lemma_find_from(t, fence(), cs);
                match find_from(t, fence(), cs) {
                    Some(close) => {
                        let p = close + 3;
                        let next = if p < t.len() && t[p] == '\n' {
                            p + 1
                        } else {
                            p
                        };
                        let code = seq![PartModel::Code { lang, code: t.subrange(cs, close) }];
                        assert(prose_ok(code[0]));
                        assert(prose_without_fences(code));
                        lemma_blocks_prose(t, next);
                        lemma_concat_prose(pre, code);
                        lemma_concat_prose(pre + code, blocks_from(t, next));
                    },
                    None => {
                        let code = seq![PartModel::Code { lang, code: t.subrange(cs, t.len() as int) }];
                        assert(prose_ok(code[0]));
                        assert(prose_without_fences(code));
                        lemma_concat_prose(pre, code);
                    },
                }
            },
        }
    }
}

/// Prose never shows a raw code fence: every fence in a reply opens or
/// closes a code block.
pub proof fn law_prose_has_no_fence(t: Seq<char>)
    ensures
        prose_without_fences(code_blocks(t)),
{
    lemma_blocks_prose(t, 0);
}

proof fn lemma_find_shift(a: Seq<char>, b: Seq<char>, p: Seq<char>, i: int)
    requires
        0 <= i,
    ensures
        find_from(a + b, p, a.len() + i) == match find_from(b, p, i) {
            Some(k) => Some(a.len() + k),
            None => None::<int>,
        },
    decreases b.len() + 1 - i,
{
    let t = a + b;
    if i + p.len() <= b.len() {
        assert(t.subrange(a.len() + i, a.len() + i + p.len()) =~= b.subrange(i, i + p.len()));
        if !matches_at(b, p, i) {
            lemma_find_shift(a, b, p, i + 1);
        }
    }
}

proof fn lemma_blocks_shift(a: Seq<char>, b: Seq<char>, i: int)
    requires
        0 <= i,
    ensures
        blocks_from(a + b, a.len() + i) == blocks_from(b, i),
    decreases b.len() - i,
{
    let t = a + b;
    let n = a.len() as int;
    if i < b.len() {
        lemma_find_shift(a, b, fence(), i);
        match find_from(b, fence(), i) {
            None => {
                assert(t.subrange(n + i, t.len() as int) =~= b.subrange(i, b.len() as int));
            },
            Some(f) => {
                lemma_find_from(b, fence(), i);
                lemma_find_from(t, fence(), n + i);
                assert(t.subrange(n + i, n + f) =~= b.subrange(i, f));
                let after = f + 3;
                lemma_find_shift(a, b, seq!['\n'], after);
                lemma_find_from(b, seq!['\n'], after);
                lemma_find_from(t, seq!['\n'], n + after);
                let nl = match find_from(b, seq!['\n'], after) {
                    Some(k) => k,
                    None => b.len() as int,
                };
                assert(t.subrange(n + after, n + nl) =~= b.subrange(after, nl));
                let cs = if nl < b.len() {
                    nl + 1
                } else {
                    b.len() as int
                };
                lemma_find_shift(a, b, fence(), cs);
                lemma_find_from(b, fence(), cs);
                lemma_find_from(t, fence(), n + cs);
                match find_from(b, fence(), cs) {
                    Some(close) => {
                        assert(t.subrange(n + cs, n + close) =~= b.subrange(cs, close));
                        let p = close + 3;
                        if p < b.len() {
                            assert(t[n + p] == b[p]);
                        }
                        let next = if p < b.len() && b[p] == '\n' {
                            p + 1
                        } else {
                            p
                        };
                        lemma_blocks_shift(a, b, next);
                    },
                    None => {
                        assert(t.subrange(n + cs, t.len() as int) =~= b.subrange(cs, b.len() as int));
                    },
                }
            },
        }
    }
}

/// A fenced block is read on its own, wherever it stands: a reply that
/// starts with a closed block (an opening fence, its tag line, code with no
/// backtick, a closing fence and a newline) is that block, tagged with its
/// trimmed tag line, followed by exactly the pieces that the rest of the
/// reply has on its own.
pub proof fn law_block_read_alone(tag: Seq<char>, code: Seq<char>, rest: Seq<char>)
    requires
        forall|k: int| 0 <= k < tag.len() ==> tag[k] != '\n',
        forall|k: int| 0 <= k < code.len() ==> code[k] != '`',
    ensures
        code_blocks(fence() + tag + seq!['\n'] + code + fence() + seq!['\n'] + rest) == seq![
            PartModel::Code { lang: trim(tag), code },
        ] + code_blocks(rest),
{
    let a = fence() + tag + seq!['\n'] + code + fence() + seq!['\n'];
    let t = a + rest;
    assert(fence() + tag + seq!['\n'] + code + fence() + seq!['\n'] + rest =~= t);
    let lt = tag.len() as int;
    let lc = code.len() as int;
    // the opening fence
    assert(t.subrange(0, 3) =~= fence());
    assert(find_from(t, fence(), 0) == Some(0int));
    // the end of the tag line
    assert forall|k: int| 3 <= k < 3 + lt implies !matches_at(t, seq!['\n'], k) by {
        assert(t[k] == tag[k - 3]);
        if matches_at(t, seq!['\n'], k) {
            assert(t.subrange(k, k + 1)[0] == t[k]);
        }
    }
    assert(t[3 + lt] == '\n');
    assert(t.subrange(3 + lt, 4 + lt) =~= seq!['\n']);
    lemma_find_from_first(t, seq!['\n'], 3, 3 + lt);
    assert(t.subrange(3, 3 + lt) =~= tag);
    // the closing fence
    let cs = 4 + lt;
    assert forall|k: int| cs <= k < cs + lc implies !matches_at(t, fence(), k) by {
        assert(t[k] == code[k - cs]);
        if matches_at(t, fence(), k) {
            assert(t.subrange(k, k + 3)[0] == t[k]);
        }
    }
    assert(t.subrange(cs + lc, cs + lc + 3) =~= fence());
    lemma_find_from_first(t, fence(), cs, cs + lc);
    assert(t.subrange(cs, cs + lc) =~= code);
    let p = cs + lc + 3;
    assert(t[p] == '\n');
    assert(p + 1 == a.len());
    lemma_blocks_shift(a, rest, 0);
    assert(blocks_from(t, 0) == seq![PartModel::Code { lang: trim(tag), code }] + blocks_from(
        t,
        p + 1,
    ));
}

} // verus!
