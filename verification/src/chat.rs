//! Chat output handling: image artifacts in fenced blocks, the streaming
//! renderer that separates prose from code while tokens arrive, and the
//! slash commands of the chat prompt.
use vstd::prelude::*;
use base64::Engine as _;
use crate::text::{
    chars_of, concat_str, eq_lit, find_from, find_from_exec, first_word, first_word_exec, is_ascii_alnum,
    is_ascii_alnum_exec, lowercase, lowercase_chars, matches_at, matches_at_exec, slice_chars,
    string_of, trim, trim_chars,
};

verus! {

/// The file extension that an image token names (`image-prompt` stands for
/// a Stable Diffusion prompt).
pub open spec fn ext_for_token(t: Seq<char>) -> Option<Seq<char>> {
    if t == "image-prompt"@ {
        Some("sd-prompt"@)
    } else if t == "svg"@ || t == "image/svg+xml"@ {
        Some("svg"@)
    } else if t == "png"@ || t == "image/png"@ {
        Some("png"@)
    } else if t == "jpg"@ || t == "jpeg"@ || t == "image/jpeg"@ {
        Some("jpg"@)
    } else if t == "webp"@ || t == "image/webp"@ {
        Some("webp"@)
    } else if t == "gif"@ || t == "image/gif"@ {
        Some("gif"@)
    } else if t == "bmp"@ || t == "image/bmp"@ {
        Some("bmp"@)
    } else if t == "tif"@ || t == "tiff"@ || t == "image/tiff"@ {
        Some("tiff"@)
    } else if t == "ppm"@ || t == "image/x-portable-pixmap"@ {
        Some("ppm"@)
    } else if t == "pgm"@ || t == "image/x-portable-graymap"@ {
        Some("pgm"@)
    } else if t == "pbm"@ || t == "image/x-portable-bitmap"@ {
        Some("pbm"@)
    } else {
        None
    }
}

/// The image formats a block tag can name, each under its extension, its
/// long form and its MIME type, all leading to the same file extension; and
/// each format is named by its own extension: whatever extension a token
/// names (the Stable Diffusion prompt aside), that extension names itself
/// again.
pub proof fn law_image_tokens(t: Seq<char>)
    ensures
        ext_for_token("image-prompt"@) == Some("sd-prompt"@),
        ext_for_token("svg"@) == Some("svg"@),
        ext_for_token("image/svg+xml"@) == Some("svg"@),
        ext_for_token("png"@) == Some("png"@),
        ext_for_token("image/png"@) == Some("png"@),
        ext_for_token("jpg"@) == Some("jpg"@),
        ext_for_token("jpeg"@) == Some("jpg"@),
        ext_for_token("image/jpeg"@) == Some("jpg"@),
        ext_for_token("webp"@) == Some("webp"@),
        ext_for_token("image/webp"@) == Some("webp"@),
        ext_for_token("gif"@) == Some("gif"@),
        ext_for_token("image/gif"@) == Some("gif"@),
        ext_for_token("bmp"@) == Some("bmp"@),
        ext_for_token("image/bmp"@) == Some("bmp"@),
        ext_for_token("tif"@) == Some("tiff"@),
        ext_for_token("tiff"@) == Some("tiff"@),
        ext_for_token("image/tiff"@) == Some("tiff"@),
        ext_for_token("ppm"@) == Some("ppm"@),
        ext_for_token("image/x-portable-pixmap"@) == Some("ppm"@),
        ext_for_token("pgm"@) == Some("pgm"@),
        ext_for_token("image/x-portable-graymap"@) == Some("pgm"@),
        ext_for_token("pbm"@) == Some("pbm"@),
        ext_for_token("image/x-portable-bitmap"@) == Some("pbm"@),
        t != "image-prompt"@ ==> (ext_for_token(t) matches Some(e) ==> ext_for_token(e) == Some(e)),
{
    reveal_strlit("image-prompt");
    reveal_strlit("sd-prompt");
    reveal_strlit("svg");
    reveal_strlit("image/svg+xml");
    reveal_strlit("png");
    reveal_strlit("image/png");
    reveal_strlit("jpg");
    reveal_strlit("jpeg");
    reveal_strlit("image/jpeg");
    reveal_strlit("webp");
    reveal_strlit("image/webp");
    reveal_strlit("gif");
    reveal_strlit("image/gif");
    reveal_strlit("bmp");
    reveal_strlit("image/bmp");
    reveal_strlit("tif");
    reveal_strlit("tiff");
    reveal_strlit("image/tiff");
    reveal_strlit("ppm");
    reveal_strlit("image/x-portable-pixmap");
    reveal_strlit("pgm");
    reveal_strlit("image/x-portable-graymap");
    reveal_strlit("pbm");
    reveal_strlit("image/x-portable-bitmap");
    assert("svg"@[0] == 's' && "png"@[0] == 'p' && "jpg"@[0] == 'j' && "jpeg"@[0] == 'j');
    assert("webp"@[0] == 'w' && "gif"@[0] == 'g' && "bmp"@[0] == 'b' && "tif"@[0] == 't');
    assert("tiff"@[0] == 't' && "ppm"@[1] == 'p' && "pgm"@[1] == 'g' && "pbm"@[1] == 'b');
    assert("png"@[1] == 'n' && "jpg"@[1] == 'p' && "tif"@.len() == 3 && "tiff"@.len() == 4);
    assert("image/png"@[6] == 'p' && "image/jpeg"@[6] == 'j' && "image/webp"@[6] == 'w');
    assert("image/gif"@[6] == 'g' && "image/bmp"@[6] == 'b' && "image/tiff"@[6] == 't');
    assert("image/svg+xml"@[6] == 's' && "image-prompt"@[5] == '-');
    assert("image/x-portable-pixmap"@[17] == 'p' && "image/x-portable-graymap"@[17] == 'g');
    assert("image/x-portable-bitmap"@[17] == 'b');
}

/// The image extension named by the language tag of a fenced block: the
/// first word of the trimmed, lower-cased tag.
pub open spec fn image_ext(lang: Seq<char>) -> Option<Seq<char>> {
    ext_for_token(first_word(lowercase(trim(lang))))
}

fn ext_lit(e: &'static str) -> (r: Option<&'static str>)
    ensures
        r == Some(e),
{
    Some(e)
}

/// The image extension named by the language tag of a fenced block, if any.
pub fn image_ext_from_lang(lang: &str) -> (r: Option<&'static str>)
    ensures
        match r {
            Some(e) => image_ext(lang@) == Some(e@),
            None => image_ext(lang@) is None,
        },
{
    let norm = lowercase_chars(&trim_chars(&chars_of(lang)));
    let t = first_word_exec(&norm);
    if eq_lit(&t, "image-prompt") {
        ext_lit("sd-prompt")
    } else if eq_lit(&t, "svg") || eq_lit(&t, "image/svg+xml") {
        ext_lit("svg")
    } else if eq_lit(&t, "png") || eq_lit(&t, "image/png") {
        ext_lit("png")
    } else if eq_lit(&t, "jpg") || eq_lit(&t, "jpeg") || eq_lit(&t, "image/jpeg") {
        ext_lit("jpg")
    } else if eq_lit(&t, "webp") || eq_lit(&t, "image/webp") {
        ext_lit("webp")
    } else if eq_lit(&t, "gif") || eq_lit(&t, "image/gif") {
        ext_lit("gif")
    } else if eq_lit(&t, "bmp") || eq_lit(&t, "image/bmp") {
        ext_lit("bmp")
    } else if eq_lit(&t, "tif") || eq_lit(&t, "tiff") || eq_lit(&t, "image/tiff") {
        ext_lit("tiff")
    } else if eq_lit(&t, "ppm") || eq_lit(&t, "image/x-portable-pixmap") {
        ext_lit("ppm")
    } else if eq_lit(&t, "pgm") || eq_lit(&t, "image/x-portable-graymap") {
        ext_lit("pgm")
    } else if eq_lit(&t, "pbm") || eq_lit(&t, "image/x-portable-bitmap") {
        ext_lit("pbm")
    } else {
        None
    }
}

/// Whether the word `w` (made of ASCII letters and digits) stands in `s` at
/// index `i` as a whole word, with no ASCII letter or digit next to it.
pub open spec fn word_at(s: Seq<char>, w: Seq<char>, i: int) -> bool {
    &&& matches_at(s, w, i)
    &&& (i == 0 || !is_ascii_alnum(s[i - 1]))
    &&& (i + w.len() == s.len() || !is_ascii_alnum(s[i + w.len()]))
}

/// Whether the lower-cased request `s` mentions the format `w`: as a whole
/// word, or as an extension `.w`.
pub open spec fn mentions(s: Seq<char>, w: Seq<char>) -> bool {
    (exists|i: int| word_at(s, w, i)) || (exists|i: int| matches_at(s, "."@ + w, i))
}

/// The image format that a request asks for, in order of preference.
pub open spec fn preferred_ext(s: Seq<char>) -> Option<Seq<char>> {
    if mentions(s, "png"@) {
        Some("png"@)
    } else if mentions(s, "jpeg"@) || mentions(s, "jpg"@) {
        Some("jpg"@)
    } else if mentions(s, "webp"@) {
        Some("webp"@)
    } else if mentions(s, "gif"@) {
        Some("gif"@)
    } else if mentions(s, "bmp"@) {
        Some("bmp"@)
    } else if mentions(s, "tiff"@) || mentions(s, "tif"@) {
        Some("tiff"@)
    } else if mentions(s, "svg"@) {
        Some("svg"@)
    } else if mentions(s, "ppm"@) {
        Some("ppm"@)
    } else if mentions(s, "pgm"@) {
        Some("pgm"@)
    } else if mentions(s, "pbm"@) {
        Some("pbm"@)
    } else {
        None
    }
}

fn word_at_exec(s: &[char], w: &[char], i: usize) -> (b: bool)
    ensures
        b == word_at(s@, w@, i as int),
{
    if !matches_at_exec(s, w, i) {
        return false;
    }
    let before = i == 0 || !is_ascii_alnum_exec(s[i - 1]);
    let after = i + w.len() == s.len() || !is_ascii_alnum_exec(s[i + w.len()]);
    before && after
}

fn mentions_exec(s: &[char], w: &str) -> (b: bool)
    ensures
        b == mentions(s@, w@),
{
    let wv = chars_of(w);
    let dotted = crate::text::concat_chars(&chars_of("."), &wv);
    let mut i: usize = 0;
    while i < s.len()
        invariant
            i <= s@.len(),
            wv@ == w@,
            dotted@ == "."@ + w@,
            forall|k: int| 0 <= k < i ==> !#[trigger] word_at(s@, w@, k),
            forall|k: int| 0 <= k < i ==> !#[trigger] matches_at(s@, dotted@, k),
        decreases s@.len() - i,
    {
        if word_at_exec(s, &wv, i) || matches_at_exec(s, &dotted, i) {
            return true;
        }
        assert(!word_at(s@, w@, i as int) && !matches_at(s@, dotted@, i as int));
        i = i + 1;
    }
    if word_at_exec(s, &wv, i) || matches_at_exec(s, &dotted, i) {
        return true;
    }
    assert forall|k: int| !word_at(s@, w@, k) by {
        if 0 <= k < i {
        }
    }
    assert forall|k: int| !matches_at(s@, dotted@, k) by {
        if 0 <= k < i {
        }
    }
    false
}

/// The image format that the user's request asks for, if any.
pub fn preferred_image_ext_from_user_input(input: &str) -> (r: Option<&'static str>)
    ensures
        match r {
            Some(e) => preferred_ext(lowercase(input@)) == Some(e@),
            None => preferred_ext(lowercase(input@)) is None,
        },
{
    let l = crate::text::to_lowercase(input);
    let s = chars_of(l.as_str());
    if mentions_exec(&s, "png") {
        ext_lit("png")
    } else if mentions_exec(&s, "jpeg") || mentions_exec(&s, "jpg") {
        ext_lit("jpg")
    } else if mentions_exec(&s, "webp") {
        ext_lit("webp")
    } else if mentions_exec(&s, "gif") {
        ext_lit("gif")
    } else if mentions_exec(&s, "bmp") {
        ext_lit("bmp")
    } else if mentions_exec(&s, "tiff") || mentions_exec(&s, "tif") {
        ext_lit("tiff")
    } else if mentions_exec(&s, "svg") {
        ext_lit("svg")
    } else if mentions_exec(&s, "ppm") {
        ext_lit("ppm")
    } else if mentions_exec(&s, "pgm") {
        ext_lit("pgm")
    } else if mentions_exec(&s, "pbm") {
        ext_lit("pbm")
    } else {
        None
    }
}


/// The fenced blocks of a complete response, from index `pos` on, as
/// (trimmed language tag, body) pairs. A fence must be followed by a line
/// break and a closing fence; scanning stops at the first that is not.
pub open spec fn fenced_blocks_from(t: Seq<char>, pos: int) -> Seq<(Seq<char>, Seq<char>)>
    decreases t.len() + 1 - pos,
{
    if pos < 0 {
        Seq::empty()
    } else {
        match find_from(t, "```"@, pos) {
            None => Seq::empty(),
            Some(start) => match find_from(t, "\n"@, start + 3) {
                None => Seq::empty(),
                Some(nl) => match find_from(t, "```"@, nl + 1) {
                    None => Seq::empty(),
                    Some(end) => {
                        proof {
                            reveal_strlit("```");
                            crate::text::lemma_find_from(t, "```"@, pos);
                            crate::text::lemma_find_from(t, "\n"@, start + 3);
                            crate::text::lemma_find_from(t, "```"@, nl + 1);
                        }
                        seq![(trim(t.subrange(start + 3, nl)), t.subrange(nl + 1, end))]
                            + fenced_blocks_from(t, end + 3)
                    },
                },
            },
        }
    }
}

/// The characters of each string of each pair.
pub open spec fn string_pairs_view(v: Seq<(String, String)>) -> Seq<(Seq<char>, Seq<char>)> {
    v.map_values(|p: (String, String)| (p.0@, p.1@))
}

/// The fenced blocks of a complete response, as (language tag, body) pairs.
pub fn parse_fenced_blocks(text: &str) -> (r: Vec<(String, String)>)
    ensures
        string_pairs_view(r@) == fenced_blocks_from(text@, 0),
{
    let t = chars_of(text);
    let fence = chars_of("```");
    let newline = chars_of("\n");
    proof {
        reveal_strlit("```");
        reveal_strlit("\n");
    }
    let mut blocks: Vec<(String, String)> = Vec::new();
    let mut pos: usize = 0;
    loop
        invariant
            t@ == text@,
            fence@ == "```"@,
            newline@ == "\n"@,
            pos <= t@.len() + 1,
            fenced_blocks_from(t@, 0) == string_pairs_view(blocks@) + fenced_blocks_from(t@, pos as int),
        decreases t@.len() + 1 - pos,
    {
        proof {
            reveal_strlit("```");
            reveal_strlit("\n");
            crate::text::lemma_find_from(t@, fence@, pos as int);
        }
        let start = match find_from_exec(&t, &fence, pos) {
            Some(s) => s,
            None => {
                assert(string_pairs_view(blocks@) + Seq::empty() =~= string_pairs_view(blocks@));
                return blocks;
            },
        };
        assert(t@.len() == t.len());
        proof {
            crate::text::lemma_find_from(t@, newline@, start + 3);
        }
        let nl = match find_from_exec(&t, &newline, start + 3) {
            Some(n) => n,
            None => {
                assert(string_pairs_view(blocks@) + Seq::empty() =~= string_pairs_view(blocks@));
                return blocks;
            },
        };
        proof {
            crate::text::lemma_find_from(t@, fence@, nl + 1);
        }
        let end = match find_from_exec(&t, &fence, nl + 1) {
            Some(e) => e,
            None => {
                assert(string_pairs_view(blocks@) + Seq::empty() =~= string_pairs_view(blocks@));
                return blocks;
            },
        };
        assert(t@.len() == t.len());
        let lang = trim_chars(&slice_chars(&t, start + 3, nl));
        let body = slice_chars(&t, nl + 1, end);
        let ghost old_blocks = blocks@;
        blocks.push((string_of(&lang), string_of(&body)));
        assert(string_pairs_view(blocks@) =~= string_pairs_view(old_blocks).push(
            (lang@, body@),
        ));
        assert(string_pairs_view(blocks@) + fenced_blocks_from(t@, end + 3) =~= string_pairs_view(
            old_blocks,
        ) + (seq![(lang@, body@)] + fenced_blocks_from(t@, end + 3)));
        pos = end + 3;
    }
}

/// Whether `c` can stand in a base64 payload (standard or URL-safe alphabet).
pub open spec fn is_base64_char(c: char) -> bool {
    is_ascii_alnum(c) || c == '+' || c == '/' || c == '=' || c == '-' || c == '_'
}

/// The base64 text of an image block: the trimmed body after `base64,`
/// (when present), with every character outside the base64 alphabets
/// (white space among them) dropped.
pub open spec fn base64_payload(body: Seq<char>) -> Seq<char> {
    let t = trim(body);
    let p = match crate::text::find(t, "base64,"@) {
        Some(i) => t.skip(i + 7),
        None => t,
    };
    p.filter(|c: char| is_base64_char(c))
}

/// The bytes of ASCII characters.
pub open spec fn ascii_bytes(s: Seq<char>) -> Seq<u8> {
    s.map_values(|c: char| c as u8)
}

/// What the standard base64 engine (with padding) decodes `input` to.
pub uninterp spec fn base64_standard(input: Seq<u8>) -> Option<Seq<u8>>;

/// What the standard base64 engine without padding decodes `input` to.
pub uninterp spec fn base64_standard_no_pad(input: Seq<u8>) -> Option<Seq<u8>>;

/// What the URL-safe base64 engine (with padding) decodes `input` to.
pub uninterp spec fn base64_url_safe(input: Seq<u8>) -> Option<Seq<u8>>;

/// What the URL-safe base64 engine without padding decodes `input` to.
pub uninterp spec fn base64_url_safe_no_pad(input: Seq<u8>) -> Option<Seq<u8>>;

/// `base64::engine::general_purpose::STANDARD.decode`: `None` on a decode error.
#[verifier::external_body]
fn decode_standard(input: &[u8]) -> (r: Option<Vec<u8>>)
    ensures
        match r {
            Some(v) => base64_standard(input@) == Some(v@),
            None => base64_standard(input@) is None,
        },
{
    base64::engine::general_purpose::STANDARD.decode(input).ok()
}

/// `base64::engine::general_purpose::STANDARD_NO_PAD.decode`: `None` on a decode error.
#[verifier::external_body]
fn decode_standard_no_pad(input: &[u8]) -> (r: Option<Vec<u8>>)
    ensures
        match r {
            Some(v) => base64_standard_no_pad(input@) == Some(v@),
            None => base64_standard_no_pad(input@) is None,
        },
{
    base64::engine::general_purpose::STANDARD_NO_PAD.decode(input).ok()
}

/// `base64::engine::general_purpose::URL_SAFE.decode`: `None` on a decode error.
#[verifier::external_body]
fn decode_url_safe(input: &[u8]) -> (r: Option<Vec<u8>>)
    ensures
        match r {
            Some(v) => base64_url_safe(input@) == Some(v@),
            None => base64_url_safe(input@) is None,
        },
{
    base64::engine::general_purpose::URL_SAFE.decode(input).ok()
}

/// `base64::engine::general_purpose::URL_SAFE_NO_PAD.decode`: `None` on a decode error.
#[verifier::external_body]
fn decode_url_safe_no_pad(input: &[u8]) -> (r: Option<Vec<u8>>)
    ensures
        match r {
            Some(v) => base64_url_safe_no_pad(input@) == Some(v@),
            None => base64_url_safe_no_pad(input@) is None,
        },
{
    base64::engine::general_purpose::URL_SAFE_NO_PAD.decode(input).ok()
}

/// The first of the four base64 engines (standard, standard without
/// padding, URL-safe, URL-safe without padding) that decodes `input`.
pub open spec fn decode_any_base64(input: Seq<u8>) -> Option<Seq<u8>> {
    match base64_standard(input) {
        Some(v) => Some(v),
        None => match base64_standard_no_pad(input) {
            Some(v) => Some(v),
            None => match base64_url_safe(input) {
                Some(v) => Some(v),
                None => base64_url_safe_no_pad(input),
            },
        },
    }
}

/// The bytes of an image block with extension `ext`: a Stable Diffusion
/// prompt or an SVG is its own UTF-8 text; other formats are base64.
pub open spec fn image_block_bytes(ext: Seq<char>, body: Seq<char>) -> Option<Seq<u8>> {
    if ext == "sd-prompt"@ || ext == "svg"@ {
        Some(vstd::utf8::encode_utf8(body))
    } else {
        decode_any_base64(ascii_bytes(base64_payload(body)))
    }
}

/// The message of a failed base64 decode.
pub open spec fn invalid_base64_message() -> Seq<char> {
    "invalid base64 image payload"@
}

fn base64_payload_exec(body: &str) -> (r: Vec<u8>)
    ensures
        r@ == ascii_bytes(base64_payload(body@)),
{
    let t = trim_chars(&chars_of(body));
    let marker = chars_of("base64,");
    proof {
        reveal_strlit("base64,");
        crate::text::lemma_find_from(t@, marker@, 0);
    }
    let p = match find_from_exec(&t, &marker, 0) {
        Some(i) => {
            assert(t@.len() == t.len());
            slice_chars(&t, i + 7, t.len())
        },
        None => slice_chars(&t, 0, t.len()),
    };
    assert(t@.subrange(0, t@.len() as int) == t@);
    let ghost keep = |c: char| is_base64_char(c);
    let mut out: Vec<u8> = Vec::new();
    let mut i: usize = 0;
    while i < p.len()
        invariant
            i <= p@.len(),
            out@ == ascii_bytes(p@.take(i as int).filter(keep)),
            keep == (|c: char| is_base64_char(c)),
        decreases p.len() - i,
    {
        let c = p[i];
        proof {
            reveal(Seq::filter);
            assert(p@.take(i + 1).drop_last() == p@.take(i as int));
        }
        if is_ascii_alnum_exec(c) || c == '+' || c == '/' || c == '=' || c == '-' || c == '_' {
            out.push(c as u8);
            assert(out@ =~= ascii_bytes(p@.take(i + 1).filter(keep)));
        } else {
            assert(out@ =~= ascii_bytes(p@.take(i + 1).filter(keep)));
        }
        i = i + 1;
    }
    assert(p@.take(p@.len() as int) == p@);
    out
}

/// The bytes of an image block, or the reason it cannot be decoded.
pub fn decode_image_block(ext: &str, body: &str) -> (r: Result<Vec<u8>, String>)
    ensures
        match r {
            Ok(v) => image_block_bytes(ext@, body@) == Some(v@),
            Err(e) => image_block_bytes(ext@, body@) is None && e@ == invalid_base64_message(),
        },
{
    let e = chars_of(ext);
    if eq_lit(&e, "sd-prompt") || eq_lit(&e, "svg") {
        return Ok(slice_to_vec_u8(body.as_bytes()));
    }
    let input = base64_payload_exec(body);
    let decoded = match decode_standard(&input) {
        Some(v) => Some(v),
        None => match decode_standard_no_pad(&input) {
            Some(v) => Some(v),
            None => match decode_url_safe(&input) {
                Some(v) => Some(v),
                None => decode_url_safe_no_pad(&input),
            },
        },
    };
    match decoded {
        Some(v) => Ok(v),
        None => Err("invalid base64 image payload".to_owned()),
    }
}

fn slice_to_vec_u8(b: &[u8]) -> (r: Vec<u8>)
    ensures
        r@ == b@,
{
    let mut r: Vec<u8> = Vec::new();
    let mut i: usize = 0;
    while i < b.len()
        invariant
            i <= b@.len(),
            r@ == b@.take(i as int),
        decreases b.len() - i,
    {
        r.push(b[i]);
        i = i + 1;
        assert(r@ =~= b@.take(i as int));
    }
    assert(b@.take(b@.len() as int) == b@);
    r
}


/// An image found in a response: its file extension and its bytes.
pub struct ImageArtifact {
    pub ext: String,
    pub bytes: Vec<u8>,
}

/// The extension and bytes of each artifact.
pub open spec fn artifacts_view(v: Seq<ImageArtifact>) -> Seq<(Seq<char>, Seq<u8>)> {
    v.map_values(|a: ImageArtifact| (a.ext@, a.bytes@))
}

/// The message for an image block that could not be decoded.
pub open spec fn decode_failure(ext: Seq<char>) -> Seq<char> {
    ext + " artifact decode failed: "@ + invalid_base64_message()
}

/// The artifacts decoded from (extension, body) blocks, in order, and the
/// messages for the blocks that could not be decoded.
pub open spec fn artifacts_of_blocks(blocks: Seq<(Seq<char>, Seq<char>)>) -> (
    Seq<(Seq<char>, Seq<u8>)>,
    Seq<Seq<char>>,
)
    decreases blocks.len(),
{
    if blocks.len() == 0 {
        (Seq::empty(), Seq::empty())
    } else {
        let (a, e) = artifacts_of_blocks(blocks.drop_last());
        let (ext, body) = blocks.last();
        match image_block_bytes(ext, body) {
            Some(b) => (a.push((ext, b)), e),
            None => (a, e.push(decode_failure(ext))),
        }
    }
}

/// The fenced blocks whose language tag names an image, as (extension, body).
pub open spec fn image_blocks(blocks: Seq<(Seq<char>, Seq<char>)>) -> Seq<(Seq<char>, Seq<char>)>
    decreases blocks.len(),
{
    if blocks.len() == 0 {
        Seq::empty()
    } else {
        let rest = image_blocks(blocks.drop_last());
        match image_ext(blocks.last().0) {
            Some(ext) => rest.push((ext, blocks.last().1)),
            None => rest,
        }
    }
}

/// Decode (extension, body) blocks into image artifacts, collecting the
/// messages of those that fail.
pub fn image_artifacts_from_blocks(blocks: &[(String, String)]) -> (r: (Vec<ImageArtifact>, Vec<String>))
    ensures
        (artifacts_view(r.0@), r.1@.map_values(|s: String| s@)) == artifacts_of_blocks(
            string_pairs_view(blocks@),
        ),
{
    let ghost bv = string_pairs_view(blocks@);
    let mut out: Vec<ImageArtifact> = Vec::new();
    let mut errors: Vec<String> = Vec::new();
    let mut i: usize = 0;
    while i < blocks.len()
        invariant
            i <= blocks@.len(),
            bv == string_pairs_view(blocks@),
            (artifacts_view(out@), errors@.map_values(|s: String| s@)) == artifacts_of_blocks(
                bv.take(i as int),
            ),
        decreases blocks.len() - i,
    {
        let ext = &blocks[i].0;
        let body = &blocks[i].1;
        assert(bv.take(i + 1).drop_last() =~= bv.take(i as int));
        assert(bv.take(i + 1).last() == (ext@, body@));
        let ghost old_out = out@;
        let ghost old_err = errors@;
        match decode_image_block(ext.as_str(), body.as_str()) {
            Ok(bytes) => {
                out.push(ImageArtifact { ext: string_of(&chars_of(ext.as_str())), bytes });
                assert(artifacts_view(out@) =~= artifacts_view(old_out).push((ext@, bytes@)));
            },
            Err(e) => {
                let msg = concat_str(ext.as_str(), " artifact decode failed: ");
                let msg = concat_str(msg.as_str(), e.as_str());
                errors.push(msg);
                assert(errors@.map_values(|s: String| s@) =~= old_err.map_values(|s: String| s@).push(
                    decode_failure(ext@),
                ));
            },
        }
        i = i + 1;
    }
    assert(bv.take(blocks@.len() as int) =~= bv);
    (out, errors)
}

/// The image artifacts of a complete response: its fenced blocks whose
/// language tag names an image, decoded; and the messages of those that fail.
pub fn collect_image_artifacts(response: &str) -> (r: (Vec<ImageArtifact>, Vec<String>))
    ensures
        (artifacts_view(r.0@), r.1@.map_values(|s: String| s@)) == artifacts_of_blocks(
            image_blocks(fenced_blocks_from(response@, 0)),
        ),
{
    let blocks = parse_fenced_blocks(response);
    let ghost bv = string_pairs_view(blocks@);
    let mut images: Vec<(String, String)> = Vec::new();
    let mut i: usize = 0;
    while i < blocks.len()
        invariant
            i <= blocks@.len(),
            bv == string_pairs_view(blocks@),
            string_pairs_view(images@) == image_blocks(bv.take(i as int)),
        decreases blocks.len() - i,
    {
        assert(bv.take(i + 1).drop_last() =~= bv.take(i as int));
        let ghost old_images = images@;
        match image_ext_from_lang(blocks[i].0.as_str()) {
            Some(ext) => {
                images.push((ext.to_owned(), string_of(&chars_of(blocks[i].1.as_str()))));
                assert(string_pairs_view(images@) =~= string_pairs_view(old_images).push(
                    (ext@, bv[i as int].1),
                ));
            },
            None => {},
        }
        i = i + 1;
    }
    assert(bv.take(blocks@.len() as int) =~= bv);
    image_artifacts_from_blocks(&images)
}

} // verus!
