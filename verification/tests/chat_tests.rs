use aide::chat::{
    collect_image_artifacts, decode_image_block, image_artifacts_from_blocks, image_ext_from_lang,
    parse_fenced_blocks, preferred_image_ext_from_user_input,
};

#[test]
fn image_languages() {
    assert_eq!(image_ext_from_lang(" PNG extra"), Some("png"));
    assert_eq!(image_ext_from_lang("image-prompt"), Some("sd-prompt"));
    assert_eq!(image_ext_from_lang("image/jpeg"), Some("jpg"));
    assert_eq!(image_ext_from_lang("tif"), Some("tiff"));
    assert_eq!(image_ext_from_lang("rust"), None);
    assert_eq!(image_ext_from_lang(""), None);
}

#[test]
fn preferred_extension_from_request() {
    assert_eq!(preferred_image_ext_from_user_input("make a logo.svg please"), Some("svg"));
    assert_eq!(preferred_image_ext_from_user_input("a JPEG or a png"), Some("png"));
    assert_eq!(preferred_image_ext_from_user_input("draw a cat"), None);
    assert_eq!(preferred_image_ext_from_user_input("pngs"), None);
}

#[test]
fn fenced_blocks_need_lang_line_and_close() {
    assert_eq!(
        parse_fenced_blocks("a ```svg\n<svg/>\n``` b ```png\nQQ==```"),
        vec![("svg".to_string(), "<svg/>\n".to_string()), ("png".to_string(), "QQ==".to_string())]
    );
    assert!(parse_fenced_blocks("```svg no newline").is_empty());
    assert!(parse_fenced_blocks("```svg\nunclosed").is_empty());
}

#[test]
fn decode_base64_variants() {
    assert_eq!(decode_image_block("png", "data:image/png;base64,aGk="), Ok(b"hi".to_vec()));
    assert_eq!(decode_image_block("png", " aG k "), Ok(b"hi".to_vec()));
    assert_eq!(decode_image_block("png", "_-8"), Ok(vec![0xff, 0xef]));
    assert_eq!(decode_image_block("svg", "<svg/>"), Ok(b"<svg/>".to_vec()));
    assert_eq!(decode_image_block("sd-prompt", " a cat "), Ok(b" a cat ".to_vec()));
    assert_eq!(decode_image_block("png", "a"), Err("invalid base64 image payload".to_string()));
}

#[test]
fn artifacts_and_errors() {
    let (a, e) = image_artifacts_from_blocks(&[
        ("png".to_string(), "aGk=".to_string()),
        ("gif".to_string(), "a".to_string()),
    ]);
    assert_eq!(a.len(), 1);
    assert_eq!(a[0].ext, "png");
    assert_eq!(a[0].bytes, b"hi".to_vec());
    assert_eq!(e, vec!["gif artifact decode failed: invalid base64 image payload".to_string()]);
}

#[test]
fn collect_from_response_skips_non_images() {
    let (a, e) = collect_image_artifacts("x\n```rust\nfn f(){}\n```\n```image-prompt\na red fox\n```");
    assert!(e.is_empty());
    assert_eq!(a.len(), 1);
    assert_eq!(a[0].ext, "sd-prompt");
    assert_eq!(a[0].bytes, b"a red fox\n".to_vec());
}

#[test]
fn url_safe_padded_payload() {
    assert_eq!(decode_image_block("webp", "_-8="), Ok(vec![0xff, 0xef]));
}
