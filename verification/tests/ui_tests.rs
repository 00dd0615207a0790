use aide::ui::{split_code_blocks, Part};

fn show(parts: &[Part<'_>]) -> Vec<String> {
    parts
        .iter()
        .map(|p| match p {
            Part::Text(t) => format!("T[{}]", t),
            Part::Code { lang, code } => format!("C[{}|{}]", lang, code),
        })
        .collect()
}

#[test]
fn split_code_blocks_plain_text() {
    assert_eq!(show(&split_code_blocks("hello")), vec!["T[hello]"]);
    assert!(split_code_blocks("").is_empty());
}

#[test]
fn split_code_blocks_text_code_text() {
    let parts = split_code_blocks("Intro\n```rust\nfn main() {}\n```\nBye");
    assert_eq!(show(&parts), vec!["T[Intro\n]", "C[rust|fn main() {}\n]", "T[Bye]"]);
}

#[test]
fn split_code_blocks_trims_lang_and_drops_newline_after_fence() {
    let parts = split_code_blocks("```  py  \nx = 1\n```\n");
    assert_eq!(show(&parts), vec!["C[py|x = 1\n]"]);
}

#[test]
fn split_code_blocks_unclosed_block_runs_to_end() {
    let parts = split_code_blocks("a```sh\necho hi");
    assert_eq!(show(&parts), vec!["T[a]", "C[sh|echo hi]"]);
}

#[test]
fn split_code_blocks_fence_without_newline() {
    let parts = split_code_blocks("```js");
    assert_eq!(show(&parts), vec!["C[js|]"]);
}

#[test]
fn split_code_blocks_unicode_text() {
    let parts = split_code_blocks("é```\nß\n```ü");
    assert_eq!(show(&parts), vec!["T[é]", "C[|ß\n]", "T[ü]"]);
}

#[test]
fn prose_never_shows_a_fence() {
    for text in ["a```x\ny```b```c", "``` ```\n```", "x`` ```y\n``````z", "````\n````"] {
        for p in split_code_blocks(text) {
            if let Part::Text(t) = p {
                assert!(!t.contains("```"), "{:?} in {:?}", t, text);
            }
        }
    }
}
