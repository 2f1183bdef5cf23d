use pi_matrix_transport::encoding::{append_hex, append_padded, fits_base64};
use pi_matrix_transport::paths::is_sibling;
use pi_matrix_transport::projects::{normalize_project_slug, project_room_name, SlugError};
use pi_matrix_transport::text::{
    collapsed, is_whitespace, split_chars, split_lines, split_words, text_has_part,
    text_has_prefix, text_precedes, trim_text,
};

fn chars(s: &str) -> Vec<char> {
    s.chars().collect()
}

fn strings(parts: Vec<Vec<char>>) -> Vec<String> {
    parts.into_iter().map(|part| part.into_iter().collect()).collect()
}

#[test]
fn white_space_is_that_of_unicode() {
    for c in '\0'..=char::MAX {
        assert_eq!(is_whitespace(c), c.is_whitespace(), "{:?}", c);
    }
}

#[test]
fn trimming_agrees_with_std() {
    for s in ["", " ", "a", " a ", "\u{a0}x y\u{2003}", "\n\t", "é ", "\u{200b} z"] {
        assert_eq!(trim_text(s), s.trim());
    }
}

#[test]
fn splitting_agrees_with_std() {
    for s in ["", "\n", "a\nb", "a\n", "\n\na", "one  two\tthree", " x ", ",,a,"] {
        let lines: Vec<String> = s.lines().map(str::to_owned).collect();
        assert_eq!(strings(split_lines(&chars(s))), lines);
        let words: Vec<String> = s.split_whitespace().map(str::to_owned).collect();
        assert_eq!(strings(split_words(&chars(s))), words);
        let pieces: Vec<String> = s.split(',').map(str::to_owned).collect();
        assert_eq!(strings(split_chars(&chars(s), ',')), pieces);
        let joined: String = collapsed(&chars(s)).into_iter().collect();
        assert_eq!(joined, words.join(" "));
    }
}

#[test]
fn order_agrees_with_std() {
    let all = ["", "!a", "!a:x", "!b", "é", "z", "zz", "\u{10000}", "\u{ffff}"];
    for a in all {
        for b in all {
            assert_eq!(text_precedes(a, b), a < b);
            assert_eq!(text_has_prefix(a, b), a.starts_with(b));
            assert_eq!(text_has_part(a, b), a.contains(b));
        }
    }
}

#[test]
fn hexadecimal_and_decimal_texts() {
    let mut out = "x".to_owned();
    append_hex(&mut out, &[0, 15, 16, 255]);
    assert_eq!(out, "x000f10ff");
    let mut number = String::new();
    append_padded(&mut number, 42, 8);
    assert_eq!(number, "00000042");
    append_padded(&mut number, u64::MAX, 8);
    assert_eq!(number, "0000004218446744073709551615");
    append_padded(&mut number, 0, 1);
    assert_eq!(number, "00000042184467440737095516150");
}

#[test]
fn base64_must_fit_in_memory() {
    assert!(fits_base64(0));
    assert!(fits_base64(26_214_400));
    assert!(!fits_base64(usize::MAX));
}

#[test]
fn siblings_agree_with_std_paths() {
    let all = [
        "", "/", ".", "..", "a", "/a", "./a", "a/b", "/a/b", "/a/./b", "/a//b/", "a/..", "./.",
        "media-tmp", "/media-tmp", "./media-tmp", "a/media-tmp", "a//media-tmp/", "/a/./media-tmp",
        "../media-tmp", "/a/media-tmp/x", "/a/../media-tmp", "media-tmp/.",
    ];
    for path in all {
        for other in all {
            let expected = std::path::Path::new(path)
                .parent()
                .map(|parent| std::path::Path::new(other) == parent.join("media-tmp"));
            assert_eq!(is_sibling(path, other, "media-tmp"), expected, "{path:?} {other:?}");
        }
    }
}

#[test]
fn slugs_are_kebab_case() {
    assert_eq!(normalize_project_slug("  My-Project-2 "), Ok("my-project-2".to_owned()));
    assert_eq!(normalize_project_slug("my-project-2"), Ok("my-project-2".to_owned()));
    for bad in ["", "   ", "-a", "a-", "a b", "a_b", "é", "A/B", "-"] {
        assert_eq!(normalize_project_slug(bad), Err(SlugError::NotKebabCase), "{bad:?}");
    }
}

#[test]
fn room_names_come_from_the_display_name_or_the_slug() {
    assert_eq!(project_room_name(&Some(" Team ".to_owned()), "a-b"), "Team");
    assert_eq!(project_room_name(&Some("  ".to_owned()), "a-b-c"), "Project · a b c");
    assert_eq!(project_room_name(&None, "ab"), "Project · ab");
}
