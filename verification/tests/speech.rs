use pi_matrix_transport::speech::{
    is_horizontal_rule, matching_paren, speech_text, spoken_overview, strip_block_markers,
    strip_inline_markdown,
};

#[test]
fn speech_text_removes_markdown_syntax_and_link_targets() {
    let source = "# Status\n\n- **ready** — see [the guide](https://example.test/guide).\n- `cargo test`\n> _No_ raw URL: <https://example.test>.\n\n![diagram](https://example.test/diagram.png)";
    assert_eq!(
        speech_text(source),
        "Status\nready — see the guide.\ncargo test\nNo raw URL: .\ndiagram",
    );
}

#[test]
fn speech_text_preserves_plain_text_and_strips_fenced_code_markers() {
    assert_eq!(
        speech_text("1. First item\n2. Second item\n\n```text\nlet value = 1;\n```"),
        "First item\nSecond item\nlet value = 1;",
    );
}

#[test]
fn spoken_overview_is_bounded_and_non_empty_for_text() {
    let source = "Status update with several details that should be shortened for spoken output while keeping the key meaning available for quick listening.";
    let overview = spoken_overview(source);
    assert!(!overview.is_empty());
    assert!(overview.chars().count() <= 420);
}

#[test]
fn matching_paren_counts_depth() {
    let chars: Vec<char> = "(a(b)c)d)".chars().collect();
    assert_eq!(matching_paren(&chars, 0), Some(6));
    assert_eq!(matching_paren(&chars, 2), Some(4));
    assert_eq!(matching_paren(&chars, 7), None);
    assert_eq!(matching_paren(&chars, 40), None);
    let open: Vec<char> = "((a)".chars().collect();
    assert_eq!(matching_paren(&open, 0), None);
}

#[test]
fn inline_marks_are_dropped_and_escapes_kept() {
    assert_eq!(strip_inline_markdown("**bold** _it_ ~~gone~~ `code`"), "bold it gone code");
    assert_eq!(strip_inline_markdown("2 \\* 3 \\[x\\]"), "2 * 3 [x]");
    assert_eq!(strip_inline_markdown("ends with \\"), "ends with \\");
    assert_eq!(strip_inline_markdown("  many \t spaces  "), "many spaces");
    assert_eq!(strip_inline_markdown(""), "");
}

#[test]
fn links_read_as_their_labels() {
    assert_eq!(strip_inline_markdown("see [a (b)](http://x/(y)) end"), "see a (b) end");
    assert_eq!(strip_inline_markdown("![**alt**  text](u)!"), "alt text!");
    assert_eq!(strip_inline_markdown("[open](never closed"), "[open](never closed");
    assert_eq!(strip_inline_markdown("[label] (apart)"), "[label] (apart)");
    assert_eq!(strip_inline_markdown("[]()x"), "x");
    assert_eq!(strip_inline_markdown("[outer [inner](t)"), "outer [inner");
}

#[test]
fn automatic_links_are_dropped() {
    assert_eq!(strip_inline_markdown("a <https://x.test> b"), "a b");
    assert_eq!(strip_inline_markdown("a <http://x.test>b"), "a b");
    assert_eq!(strip_inline_markdown("<mailto:me@x.test>"), "");
    assert_eq!(strip_inline_markdown("a <b> c"), "a <b> c");
    assert_eq!(strip_inline_markdown("a < b"), "a < b");
    assert_eq!(strip_inline_markdown("<ftp://x.test>"), "<ftp://x.test>");
}

#[test]
fn horizontal_rules_are_recognised() {
    assert!(is_horizontal_rule("---"));
    assert!(is_horizontal_rule("* * *"));
    assert!(is_horizontal_rule("_-*"));
    assert!(!is_horizontal_rule("--"));
    assert!(!is_horizontal_rule("--- x"));
    assert!(!is_horizontal_rule(""));
}

#[test]
fn block_markers_are_stripped() {
    assert_eq!(strip_block_markers("> ## Title"), "Title");
    assert_eq!(strip_block_markers("- item"), "item");
    assert_eq!(strip_block_markers("+ item"), "item");
    assert_eq!(strip_block_markers("* item"), "item");
    assert_eq!(strip_block_markers("12) item"), "item");
    assert_eq!(strip_block_markers("12. item"), "item");
    assert_eq!(strip_block_markers("12.item"), "12.item");
    assert_eq!(strip_block_markers("-item"), "-item");
    assert_eq!(strip_block_markers("> - 3. item"), "item");
    assert_eq!(strip_block_markers("####"), "");
}

#[test]
fn code_blocks_keep_rules_and_markers() {
    assert_eq!(speech_text("a\n---\nb"), "a\nb");
    assert_eq!(speech_text("~~~\n---\n# not a title\n~~~\n# title"), "---\n# not a title\ntitle");
    assert_eq!(speech_text("one\r\ntwo\r"), "one\ntwo");
    assert_eq!(speech_text("\n\n```\n```\n"), "");
}

#[test]
fn overview_takes_the_first_words_that_fit() {
    let word = "abcdefghi";
    let body = vec![word; 60].join(" ");
    let overview = spoken_overview(&body);
    // Forty-two words of nine letters and the gaps between them make 419 characters.
    assert_eq!(overview, vec![word; 42].join(" "));
    assert_eq!(overview.chars().count(), 419);
    assert_eq!(spoken_overview("one\ntwo\n\nthree"), "one two three");
    assert_eq!(spoken_overview(""), "");
    assert_eq!(spoken_overview("---"), "");
}

#[test]
fn overview_weighs_words_in_bytes() {
    // Each of these words has 200 characters and 400 bytes.
    let word: String = vec!["é"; 200].concat();
    let body = format!("{word} {word}");
    assert_eq!(spoken_overview(&body), word);
    let mixed = format!("aaaaaaaaaaaaaaaaaaa {word} b");
    // Nineteen characters, a gap and 400 bytes are just 420.
    assert_eq!(spoken_overview(&mixed), format!("aaaaaaaaaaaaaaaaaaa {word} b"));
}

#[test]
fn overview_of_one_huge_word_is_the_whole_speech() {
    let word = vec!["x"; 421].concat();
    assert_eq!(spoken_overview(&word), word);
    let exact = vec!["x"; 420].concat();
    assert_eq!(spoken_overview(&format!("{exact} y")), exact);
}
