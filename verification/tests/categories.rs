use pane::categories::{detect_content_type, is_code, is_color, is_html, is_url};

#[test]
fn test_colors() {
    assert_eq!(detect_content_type("#fff"), "color");
    assert_eq!(detect_content_type("#ff5733"), "color");
    assert_eq!(detect_content_type("#ff573380"), "color");
    assert_eq!(detect_content_type("rgb(255, 87, 51)"), "color");
    assert_eq!(detect_content_type("hsl(9, 100%, 60%)"), "color");
}

#[test]
fn test_urls() {
    assert_eq!(detect_content_type("https://google.com"), "url");
    assert_eq!(detect_content_type("http://localhost:3000"), "url");
    assert_eq!(detect_content_type("www.example.com"), "url");
}

#[test]
fn test_code() {
    assert_eq!(
        detect_content_type("function hello() {\n  return 'hi';\n}"),
        "code"
    );
    assert_eq!(
        detect_content_type("const x = () => {\n  console.log('test');\n};"),
        "code"
    );
    assert_eq!(detect_content_type("import React from 'react';"), "code");
}

#[test]
fn test_html() {
    assert_eq!(detect_content_type("<div>hello</div>"), "html");
    assert_eq!(detect_content_type("<!DOCTYPE html>"), "html");
}

#[test]
fn test_plain_text() {
    assert_eq!(detect_content_type("hello world"), "text");
    assert_eq!(detect_content_type("just some notes"), "text");
}

#[test]
fn surrounding_whitespace_keeps_the_label() {
    assert_eq!(detect_content_type("  https://google.com \n"), "url");
    assert_eq!(detect_content_type("\t#abc\u{3000}"), "color");
    assert_eq!(detect_content_type("https://google.com"), detect_content_type(" https://google.com "));
}

#[test]
fn empty_and_blank_text_is_plain_text() {
    assert_eq!(detect_content_type(""), "text");
    assert_eq!(detect_content_type(" \n\t "), "text");
}

#[test]
fn hex_colors_need_three_four_six_or_eight_digits() {
    assert_eq!(detect_content_type("#12345"), "text");
    assert_eq!(detect_content_type("#12"), "text");
    assert_eq!(detect_content_type("#abcd"), "color");
    assert_eq!(detect_content_type("#ggg"), "text");
    assert!(!is_color("#ff57331"));
}

#[test]
fn css_color_functions_ignore_case() {
    assert_eq!(detect_content_type("RGB(1,2,3)"), "color");
    assert_eq!(detect_content_type("HslA(1, 2%, 3%, 0.5)"), "color");
    assert!(!is_color("rgb(1,2,3"));
    assert!(is_color("rgba(0,0,0,0)"));
}

#[test]
fn several_lines_are_never_a_color_or_a_url() {
    assert!(!is_color("#fff\n#000"));
    assert!(!is_url("https://a.com\nhttps://b.com"));
    assert_eq!(detect_content_type("#fff\n#000"), "text");
}

#[test]
fn urls_have_no_spaces() {
    assert!(!is_url("http://a b"));
    assert!(is_url("ftp://files.example"));
    assert!(is_url("www.example"));
    assert_eq!(detect_content_type("http://a b"), "text");
}

#[test]
fn html_needs_a_closing_tag_or_a_known_tag() {
    assert!(is_html("<br>"));
    assert!(is_html("a <img src=x>"));
    assert!(!is_html("<div>"));
    assert!(!is_html("</ no end"));
}

#[test]
fn code_score_rules() {
    // one syntax fragment only
    assert!(!is_code("a => b"));
    // two fragments and balanced braces
    assert!(is_code("x => { y }"));
    // mostly indented lines count twice
    assert!(is_code("a\n  b\n  c"));
    // a short single line with no short fragment is never code
    assert!(!is_code("let x = 1;"));
    assert!(!is_code("let x = f(1, 2);"));
    assert!(is_code("let value = compute(1, 2);"));
    assert!(!is_code(""));
}
