use wikimem::{ellipsize, extract_snippet, extract_title};

#[test]
fn title_from_heading_line() {
    assert_eq!(extract_title("# Shopping List\n\n"), "Shopping List");
}

#[test]
fn title_from_heading_with_body() {
    assert_eq!(extract_title("#   Groceries  \n\nbody"), "Groceries");
}

#[test]
fn title_skips_blank_lines() {
    assert_eq!(extract_title("\n  \n\t  hello world  \nmore"), "hello world");
}

#[test]
fn title_without_heading_marker() {
    assert_eq!(extract_title("#heading"), "#heading");
    assert_eq!(extract_title("plain first line\nsecond"), "plain first line");
}

#[test]
fn title_with_crlf_line_end() {
    assert_eq!(extract_title("# Spaced out \r\nrest"), "Spaced out");
}

#[test]
fn title_of_empty_body_is_untitled() {
    assert_eq!(extract_title(""), "Untitled memory");
}

#[test]
fn title_of_blank_body_is_untitled() {
    assert_eq!(extract_title("  \n\t\r\n \u{3000}\n"), "Untitled memory");
}

#[test]
fn title_of_heading_for_several_titles() {
    for title in ["T", "  padded  ", "a # b", "日本語 title", "x\ty"] {
        let body = format!("# {title}\n\nbody");
        assert_eq!(extract_title(&body), title.trim());
    }
}

#[test]
fn ellipsize_short_text() {
    assert_eq!(ellipsize("  a\nb  "), "a b");
    assert_eq!(ellipsize(""), "");
}

#[test]
fn ellipsize_exactly_at_limit() {
    let text = "x".repeat(160);
    assert_eq!(ellipsize(&text), text);
}

#[test]
fn ellipsize_long_text() {
    let text = "x".repeat(200);
    assert_eq!(ellipsize(&text), format!("{}\u{2026}", "x".repeat(160)));
}

#[test]
fn ellipsize_trims_before_marker() {
    let text = format!("{} {}", "a".repeat(159), "b".repeat(50));
    assert_eq!(ellipsize(&text), format!("{}\u{2026}", "a".repeat(159)));
}

#[test]
fn ellipsize_counts_characters_not_bytes() {
    let text = "é".repeat(170);
    let out = ellipsize(&text);
    assert_eq!(out, format!("{}\u{2026}", "é".repeat(160)));
    assert_eq!(out.chars().count(), 161);
}

#[test]
fn snippet_is_first_matching_line() {
    let body = "first line\nBuy Milk and eggs\r\nmilk again";
    assert_eq!(extract_snippet(body, "milk"), "Buy Milk and eggs");
}

#[test]
fn snippet_falls_back_to_body() {
    assert_eq!(extract_snippet("  nothing\nhere  ", "zzz"), "nothing here");
}

#[test]
fn snippet_of_long_line_is_ellipsized() {
    let line = format!("milk {}", "y".repeat(200));
    let body = format!("intro\n{line}\n");
    assert_eq!(
        extract_snippet(&body, "milk"),
        format!("milk {}\u{2026}", "y".repeat(155))
    );
}

#[test]
fn snippet_compares_in_lowercase() {
    assert_eq!(extract_snippet("ÄPFEL kaufen\nother", "äpfel"), "ÄPFEL kaufen");
}

#[test]
fn blank_text() {
    assert!(wikimem::is_blank(""));
    assert!(wikimem::is_blank(" \n\t\u{a0}"));
    assert!(!wikimem::is_blank("  x "));
}
