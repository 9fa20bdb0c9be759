//! Classification of copied text as a color, a URL, HTML, code or plain text.

use vstd::prelude::*;
use crate::text::{
    chars_of, contains_exec, contains_seq, count_char, count_char_exec, count_lines, ends_with,
    ends_with_exec, indented_line_count, line_count, lower_text, starts_with, all_ascii, ascii_lowercase, starts_with_exec,
    string_from_chars, subvec, to_lowercase_chars, trim_chars, trim_spec, utf8_len, utf8_len_capped,
    lemma_trim_idempotent,
};

verus! {

// ---------------------------------------------------------------------------
// What each class means
// ---------------------------------------------------------------------------

/// Number of the patterns in `pats` that occur in `t`.
pub open spec fn count_present(t: Seq<char>, pats: Seq<Seq<char>>) -> nat
    decreases pats.len(),
{
    if pats.len() == 0 {
        0
    } else {
        count_present(t, pats.drop_last()) + if contains_seq(t, pats.last()) {
            1nat
        } else {
            0nat
        }
    }
}

/// An ASCII hexadecimal digit.
pub open spec fn is_hex_digit(c: char) -> bool {
    ||| ('0' <= c && c <= '9')
    ||| ('a' <= c && c <= 'f')
    ||| ('A' <= c && c <= 'F')
}

/// `#` followed by 3, 4, 6 or 8 bytes, all of them hexadecimal digits.
pub open spec fn is_hex_color(t: Seq<char>) -> bool {
    &&& t.len() > 0
    &&& t[0] == '#'
    &&& {
        let hex = t.drop_first();
        let n = utf8_len(hex);
        &&& (n == 3 || n == 4 || n == 6 || n == 8)
        &&& forall|i: int| 0 <= i < hex.len() ==> is_hex_digit(#[trigger] hex[i])
    }
}

/// An already lowercased text that is a CSS `rgb()`, `rgba()`, `hsl()` or
/// `hsla()` call: it opens with one of those names and a parenthesis and ends
/// with `)`.
pub open spec fn is_css_color_call(lower: Seq<char>) -> bool {
    &&& (starts_with(lower, "rgb("@) || starts_with(lower, "rgba("@) || starts_with(lower, "hsl("@)
        || starts_with(lower, "hsla("@))
    &&& ends_with(lower, ")"@)
}

/// A single-line CSS color: a hex color, or a color function in any case.
pub open spec fn is_color_spec(t: Seq<char>) -> bool {
    &&& !contains_seq(t, "\n"@)
    &&& (is_hex_color(t) || is_css_color_call(lower_text(t)))
}

/// A single word that starts like a URL.
pub open spec fn is_url_spec(t: Seq<char>) -> bool {
    &&& !contains_seq(t, "\n"@)
    &&& !contains_seq(t, " "@)
    &&& {
        ||| starts_with(t, "http://"@)
        ||| starts_with(t, "https://"@)
        ||| starts_with(t, "ftp://"@)
        ||| (starts_with(t, "www."@) && contains_seq(t, "."@))
    }
}

/// Self-closing or opening tags that mark HTML on their own.
pub open spec fn html_tags() -> Seq<Seq<char>> {
    seq!["<br"@, "<hr"@, "<img "@, "<input "@, "<!DOCTYPE"@, "<html"@]
}

/// Text with a closing tag, or one of the tags of `html_tags`.
pub open spec fn is_html_spec(t: Seq<char>) -> bool {
    ||| (contains_seq(t, "</"@) && contains_seq(t, ">"@))
    ||| count_present(t, html_tags()) > 0
}

/// Programming keywords, each of which adds one to the code score.
pub open spec fn code_keywords() -> Seq<Seq<char>> {
    seq![
        "function "@,
        "const "@,
        "let "@,
        "var "@,
        "import "@,
        "export "@,
        "class "@,
        "interface "@,
        "type "@,
        "enum "@,
        "struct "@,
        "def "@,
        "fn "@,
        "pub "@,
        "async "@,
        "await "@,
        "return "@,
        "if "@,
        "else "@,
        "for "@,
        "while "@,
        "try "@,
        "catch "@,
        "throw "@,
        "new "@,
        "console.log"@,
        "println!"@,
        "print("@,
        "require("@,
        "from '"@,
        "from \""@,
    ]
}

/// Syntax fragments, each of which adds one to the code score.
pub open spec fn syntax_patterns() -> Seq<Seq<char>> {
    seq![
        "=> {"@,
        "=> "@,
        "->"@,
        "==="@,
        "!=="@,
        "#{"@,
        "${"@,
        " = {"@,
        "();"@,
        ");"@,
        "};"@,
        "];"@,
        "/**"@,
        "///"@,
        "//"@,
        "/*"@,
    ]
}

/// Fragments that make even a short single line count as possible code.
pub open spec fn short_code_patterns() -> Seq<Seq<char>> {
    seq!["=>"@, "->"@, "==="@, "!=="@, "&&"@, "||"@, "::"@]
}

/// More than two lines, of which more than 30% are indented (the ratio is
/// compared exactly, in integers).
pub open spec fn mostly_indented(t: Seq<char>) -> bool {
    line_count(t) > 2 && 10 * indented_line_count(t) > 3 * line_count(t)
}

/// At least one `{`, and as many `}` as `{`.
pub open spec fn braces_balanced(t: Seq<char>) -> bool {
    count_char(t, '{') > 0 && count_char(t, '{') == count_char(t, '}')
}

/// The code score: one per keyword and per syntax fragment present, two for
/// mostly indented text, one for balanced braces.
pub open spec fn code_score(t: Seq<char>) -> nat {
    count_present(t, code_keywords()) + count_present(t, syntax_patterns()) + (if mostly_indented(
        t,
    ) {
        2nat
    } else {
        0nat
    }) + (if braces_balanced(t) {
        1nat
    } else {
        0nat
    })
}

/// A single line under 20 bytes with none of the short code fragments.
pub open spec fn is_short_plain_line(t: Seq<char>) -> bool {
    &&& line_count(t) == 1
    &&& utf8_len(t) < 20
    &&& count_present(t, short_code_patterns()) == 0
}

/// Text that looks like source code: not a short plain line, and a code score
/// of at least two.
pub open spec fn is_code_spec(t: Seq<char>) -> bool {
    !is_short_plain_line(t) && code_score(t) >= 2
}

/// The label of already trimmed text: the first of color, URL, HTML and code
/// that it is, else plain text.
pub open spec fn label_of_trimmed(t: Seq<char>) -> Seq<char> {
    if is_color_spec(t) {
        "color"@
    } else if is_url_spec(t) {
        "url"@
    } else if is_html_spec(t) {
        "html"@
    } else if is_code_spec(t) {
        "code"@
    } else {
        "text"@
    }
}

/// The label of a copied text: that of the text without surrounding whitespace.
pub open spec fn content_label(text: Seq<char>) -> Seq<char> {
    label_of_trimmed(trim_spec(text))
}

// ---------------------------------------------------------------------------
// Executable checks
// ---------------------------------------------------------------------------

/// Number of the patterns in `pats` that occur in `t`.
fn count_present_exec(t: &Vec<char>, pats: &[&str]) -> (n: usize)
    ensures
        n == count_present(t@, pats@.map_values(|p: &str| p@)),
        n <= pats.len(),
{
    let ghost all = pats@.map_values(|p: &str| p@);
    let mut n: usize = 0;
    let mut i: usize = 0;
    while i < pats.len()
        invariant
            i <= pats.len(),
            all == pats@.map_values(|p: &str| p@),
            n == count_present(t@, all.take(i as int)),
            n <= i,
        decreases pats.len() - i,
    {
        let p = chars_of(pats[i]);
        assert(all.take(i + 1).drop_last() =~= all.take(i as int));
        if contains_exec(t, &p) {
            n += 1;
        }
        i += 1;
    }
    assert(all.take(pats.len() as int) =~= all);
    n
}

/// Whether `c` is an ASCII hexadecimal digit.
pub fn is_hex_digit_exec(c: char) -> (r: bool)
    ensures
        r == is_hex_digit(c),
{
    ('0' <= c && c <= '9') || ('a' <= c && c <= 'f') || ('A' <= c && c <= 'F')
}

/// Whether the lowercased text `lower` is a CSS color function call.
pub fn is_css_color_call_exec(lower: &Vec<char>) -> (r: bool)
    ensures
        r == is_css_color_call(lower@),
{
    let opens = starts_with_exec(lower, &chars_of("rgb(")) || starts_with_exec(
        lower,
        &chars_of("rgba("),
    ) || starts_with_exec(lower, &chars_of("hsl(")) || starts_with_exec(
        lower,
        &chars_of("hsla("),
    );
    opens && ends_with_exec(lower, &chars_of(")"))
}

/// Whether `text` is a CSS color: `#RGB`, `#RGBA`, `#RRGGBB`, `#RRGGBBAA`, or
/// an `rgb()`, `rgba()`, `hsl()` or `hsla()` call, on a single line.
pub fn is_color(text: &str) -> (r: bool)
    ensures
        r == is_color_spec(text@),
{
    let t = chars_of(text);
    if contains_exec(&t, &chars_of("\n")) {
        return false;
    }
    if t.len() > 0 && t[0] == '#' {
        let hex = subvec(&t, 1, t.len());
        assert(hex@ =~= t@.drop_first());
        let n = utf8_len_capped(&hex, 9);
        if n == 3 || n == 4 || n == 6 || n == 8 {
            let mut all_hex = true;
            let mut i: usize = 0;
            while i < hex.len()
                invariant
                    i <= hex.len(),
                    all_hex == forall|k: int| 0 <= k < i ==> is_hex_digit(#[trigger] hex@[k]),
                decreases hex.len() - i,
            {
                if !is_hex_digit_exec(hex[i]) {
                    all_hex = false;
                }
                i += 1;
            }
            if all_hex {
                return true;
            }
        }
    }
    let lower = to_lowercase_chars(&t);
    is_css_color_call_exec(&lower)
}

/// Whether `text` is a single word starting with `http://`, `https://`,
/// `ftp://` or `www.`.
pub fn is_url(text: &str) -> (r: bool)
    ensures
        r == is_url_spec(text@),
{
    let t = chars_of(text);
    if contains_exec(&t, &chars_of("\n")) || contains_exec(&t, &chars_of(" ")) {
        return false;
    }
    starts_with_exec(&t, &chars_of("http://")) || starts_with_exec(&t, &chars_of("https://"))
        || starts_with_exec(&t, &chars_of("ftp://")) || (starts_with_exec(&t, &chars_of("www."))
        && contains_exec(&t, &chars_of(".")))
}

/// Whether `text` holds HTML tags.
pub fn is_html(text: &str) -> (r: bool)
    ensures
        r == is_html_spec(text@),
{
    let t = chars_of(text);
    let has_tags = contains_exec(&t, &chars_of("</")) && contains_exec(&t, &chars_of(">"));
    if has_tags {
        return true;
    }
    let tags: [&str; 6] = ["<br", "<hr", "<img ", "<input ", "<!DOCTYPE", "<html"];
    let tags_s: &[&str] = tags.as_slice();
    assert(tags_s@.map_values(|p: &str| p@) =~= html_tags());
    count_present_exec(&t, tags_s) > 0
}

/// Whether `text` looks like source code, by keywords, syntax fragments,
/// indentation and braces.
pub fn is_code(text: &str) -> (r: bool)
    ensures
        r == is_code_spec(text@),
{
    let t = chars_of(text);
    let (lines, indented) = count_lines(&t);
    if lines == 1 && utf8_len_capped(&t, 20) < 20 {
        let short: [&str; 7] = ["=>", "->", "===", "!==", "&&", "||", "::"];
        let short_s: &[&str] = short.as_slice();
        assert(short_s@.map_values(|p: &str| p@) =~= short_code_patterns());
        if count_present_exec(&t, short_s) == 0 {
            return false;
        }
    }
    let keywords: [&str; 31] = [
        "function ",
        "const ",
        "let ",
        "var ",
        "import ",
        "export ",
        "class ",
        "interface ",
        "type ",
        "enum ",
        "struct ",
        "def ",
        "fn ",
        "pub ",
        "async ",
        "await ",
        "return ",
        "if ",
        "else ",
        "for ",
        "while ",
        "try ",
        "catch ",
        "throw ",
        "new ",
        "console.log",
        "println!",
        "print(",
        "require(",
        "from '",
        "from \"",
    ];
    let keywords_s: &[&str] = keywords.as_slice();
    assert(keywords_s@.map_values(|p: &str| p@) =~= code_keywords());
    let syntax: [&str; 16] = [
        "=> {",
        "=> ",
        "->",
        "===",
        "!==",
        "#{",
        "${",
        " = {",
        "();",
        ");",
        "};",
        "];",
        "/**",
        "///",
        "//",
        "/*",
    ];
    let syntax_s: &[&str] = syntax.as_slice();
    assert(syntax_s@.map_values(|p: &str| p@) =~= syntax_patterns());
    let mut score: usize = count_present_exec(&t, keywords_s);
    score = score + count_present_exec(&t, syntax_s);
    if lines > 2 && (indented as u128) * 10 > (lines as u128) * 3 {
        score = score + 2;
    }
    let open_braces = count_char_exec(&t, '{');
    let close_braces = count_char_exec(&t, '}');
    if open_braces > 0 && open_braces == close_braces {
        score = score + 1;
    }
    score >= 2
}

/// Classifies copied text as `"color"`, `"url"`, `"html"`, `"code"` or
/// `"text"`, looking at the text without surrounding whitespace and taking the
/// first class, in that order, that it belongs to.
pub fn detect_content_type(text: &str) -> (r: &'static str)
    ensures
        r@ == content_label(text@),
{
    let chars = chars_of(text);
    let trimmed_chars = trim_chars(&chars);
    let trimmed = string_from_chars(&trimmed_chars);
    let t = trimmed.as_str();
    if is_color(t) {
        return "color";
    }
    if is_url(t) {
        return "url";
    }
    if is_html(t) {
        return "html";
    }
    if is_code(t) {
        return "code";
    }
    "text"
}


// ---------------------------------------------------------------------------
// Laws
// ---------------------------------------------------------------------------

/// Every text gets one of the five labels.
pub proof fn law_label_is_one_of_five(text: Seq<char>)
    ensures
        content_label(text) == "color"@ || content_label(text) == "url"@ || content_label(text)
            == "html"@ || content_label(text) == "code"@ || content_label(text) == "text"@,
{
}

/// Whitespace around a text does not change its label.
pub proof fn law_label_ignores_surrounding_whitespace(text: Seq<char>)
    ensures
        content_label(trim_spec(text)) == content_label(text),
{
    lemma_trim_idempotent(text);
}

/// On ASCII text, CSS color calls are recognised in any case: the text is a
/// color exactly when it is a hex color or its lowercased form is a call.
pub proof fn law_css_color_calls_ignore_ascii_case(t: Seq<char>)
    requires
        all_ascii(t),
        !contains_seq(t, "\n"@),
    ensures
        is_color_spec(t) == (is_hex_color(t) || is_css_color_call(ascii_lowercase(t))),
{
}

/// A text that still spans several lines once trimmed is neither a color nor
/// a URL.
pub proof fn law_multiline_is_neither_color_nor_url(text: Seq<char>)
    requires
        contains_seq(trim_spec(text), "\n"@),
    ensures
        !is_color_spec(trim_spec(text)),
        !is_url_spec(trim_spec(text)),
{
}

/// The classes are tried in the order color, URL, HTML, code: a text gets the
/// first label whose test its trimmed form passes, and plain text when it
/// passes none. In particular HTML that is neither a color nor a URL is
/// labelled HTML whatever its code score.
pub proof fn law_classes_tried_in_order(text: Seq<char>)
    ensures
        is_color_spec(trim_spec(text)) ==> content_label(text) == "color"@,
        !is_color_spec(trim_spec(text)) && is_url_spec(trim_spec(text)) ==> content_label(text)
            == "url"@,
        !is_color_spec(trim_spec(text)) && !is_url_spec(trim_spec(text)) && is_html_spec(
            trim_spec(text),
        ) ==> content_label(text) == "html"@,
        !is_color_spec(trim_spec(text)) && !is_url_spec(trim_spec(text)) && !is_html_spec(
            trim_spec(text),
        ) && is_code_spec(trim_spec(text)) ==> content_label(text) == "code"@,
        !is_color_spec(trim_spec(text)) && !is_url_spec(trim_spec(text)) && !is_html_spec(
            trim_spec(text),
        ) && !is_code_spec(trim_spec(text)) ==> content_label(text) == "text"@,
{
}

} // verus!
