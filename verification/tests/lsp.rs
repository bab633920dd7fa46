use bexp::lsp::{content_length_of, frame_message, lsp_language_id};

#[test]
fn frames_messages_with_byte_length() {
    assert_eq!(frame_message("{}"), "Content-Length: 2\r\n\r\n{}");
    assert_eq!(frame_message("é"), "Content-Length: 2\r\n\r\né");
    assert_eq!(frame_message(""), "Content-Length: 0\r\n\r\n");
}

#[test]
fn reads_content_length_headers() {
    assert_eq!(content_length_of("Content-Length: 123\r\n"), Some(123));
    assert_eq!(content_length_of("  Content-Length: 7"), Some(7));
    assert_eq!(content_length_of("Content-Length: +7"), Some(7));
    assert_eq!(content_length_of("Content-Length: "), None);
    assert_eq!(content_length_of("Content-Length: 1x"), None);
    assert_eq!(content_length_of("Content-Type: 5"), None);
    assert_eq!(content_length_of("content-length: 5"), None);
    assert_eq!(content_length_of("Content-Length: 99999999999999999999999"), None);
    assert_eq!(
        content_length_of(&format!("Content-Length: {}", usize::MAX)),
        Some(usize::MAX)
    );
}

#[test]
fn language_ids_follow_the_last_dot() {
    assert_eq!(lsp_language_id("/w/src/main.rs"), "rust");
    assert_eq!(lsp_language_id("a/b.tsx"), "typescript");
    assert_eq!(lsp_language_id("x.mjs"), "javascript");
    assert_eq!(lsp_language_id("m.pyi"), "python");
    assert_eq!(lsp_language_id("k.h"), "c");
    assert_eq!(lsp_language_id("k.hxx"), "cpp");
    assert_eq!(lsp_language_id("p.htm"), "html");
    assert_eq!(lsp_language_id("Makefile"), "plaintext");
    assert_eq!(lsp_language_id("rs"), "rust");
}
