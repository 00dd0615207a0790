use aide::stream::{StreamEvent, StreamRenderer};

fn show(evs: &[StreamEvent]) -> Vec<String> {
    evs.iter()
        .map(|e| match e {
            StreamEvent::Text(t) => format!("T[{}]", t),
            StreamEvent::Code { lang, code } => format!("C[{}|{}]", lang, code),
            StreamEvent::Image { ext, index } => format!("I[{}#{}]", ext, index),
        })
        .collect()
}

#[test]
fn prose_is_passed_on_keeping_three_bytes_back() {
    let mut r = StreamRenderer::new();
    assert_eq!(show(&r.feed("Hello world")), vec!["T[Hello wo]"]);
    assert_eq!(r.pending_len(), 3);
    assert_eq!(show(&r.finish()), vec!["T[rld]"]);
}

#[test]
fn short_pieces_wait() {
    let mut r = StreamRenderer::new();
    assert!(r.feed("ab").is_empty());
    assert_eq!(show(&r.feed("cd")), vec!["T[a]"]);
}

#[test]
fn multibyte_prose_is_cut_on_character_boundaries() {
    let mut r = StreamRenderer::new();
    // "éé" is four bytes: only the first character can leave three bytes behind.
    assert!(r.feed("éé").is_empty());
    assert_eq!(show(&r.feed("x")), vec!["T[é]"]);
}

#[test]
fn code_block_split_across_pieces() {
    let mut r = StreamRenderer::new();
    let mut out = Vec::new();
    for p in ["x``", "`ru", "st\nfn a(){}\n`", "``\nmore"] {
        out.extend(show(&r.feed(p)));
    }
    out.extend(show(&r.finish()));
    assert_eq!(out.concat(), "T[x]C[rust|fn a(){}\n]T[\nm]T[ore]");
}

#[test]
fn image_blocks_are_captured_and_numbered() {
    let mut r = StreamRenderer::new();
    let ev = r.feed("```png\nAAAA\n```\n```svg\n<svg/>\n```\n");
    assert_eq!(show(&ev), vec!["I[png#1]", "T[\n]", "I[svg#2]"]);
    assert_eq!(r.image_count(), 2);
    assert_eq!(
        r.captured_blocks(),
        vec![("png".to_string(), "AAAA\n".to_string()), ("svg".to_string(), "<svg/>\n".to_string())]
    );
}

#[test]
fn unfinished_code_is_flushed_as_code() {
    let mut r = StreamRenderer::new();
    r.feed("```py\nprint(1)");
    assert_eq!(show(&r.finish()), vec!["C[py|print(1)]"]);
}
