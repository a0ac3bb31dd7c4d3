use drawer::color::resolve_color;
use drawer::escape::escape_xml;
use drawer::wrap::{max_chars_for, wrap_text};

#[test]
fn escape_replaces_all_five_specials() {
    assert_eq!(
        escape_xml("a<b & \"c\" 'd'>"),
        "a&lt;b &amp; &quot;c&quot; &apos;d&apos;&gt;"
    );
}

#[test]
fn escape_leaves_plain_text() {
    assert_eq!(escape_xml("plain text é"), "plain text é");
    assert_eq!(escape_xml(""), "");
}

#[test]
fn escape_does_not_rescape_entities() {
    assert_eq!(escape_xml("&amp;"), "&amp;amp;");
}

#[test]
fn escape_of_concatenation_is_concatenation_of_escapes() {
    let a = "x<&";
    let b = "'y\">";
    let joined = format!("{a}{b}");
    assert_eq!(escape_xml(&joined), format!("{}{}", escape_xml(a), escape_xml(b)));
}

#[test]
fn escaped_text_has_no_markup_characters() {
    let out = escape_xml("<tag attr='v' other=\"w\">");
    assert!(!out.contains('<') && !out.contains('>') && !out.contains('"') && !out.contains('\''));
}

#[test]
fn preset_colors() {
    assert_eq!(resolve_color(Some("1")), "#fb464c");
    assert_eq!(resolve_color(Some("2")), "#e9973f");
    assert_eq!(resolve_color(Some("3")), "#e0de71");
    assert_eq!(resolve_color(Some("4")), "#44cf6e");
    assert_eq!(resolve_color(Some("5")), "#53dfdd");
    assert_eq!(resolve_color(Some("6")), "#a882ff");
}

#[test]
fn hex_colors_pass_through() {
    assert_eq!(resolve_color(Some("#123456")), "#123456");
    assert_eq!(resolve_color(Some("#")), "#");
}

#[test]
fn unknown_colors_are_gray() {
    assert_eq!(resolve_color(None), "#b4b4b4");
    assert_eq!(resolve_color(Some("7")), "#b4b4b4");
    assert_eq!(resolve_color(Some("red")), "#b4b4b4");
    assert_eq!(resolve_color(Some("")), "#b4b4b4");
    assert_eq!(resolve_color(Some("11")), "#b4b4b4");
}

#[test]
fn line_length_from_width() {
    assert_eq!(max_chars_for(100), 10);
    assert_eq!(max_chars_for(58), 5);
    assert_eq!(max_chars_for(35), 2);
    assert_eq!(max_chars_for(28), 1);
    assert_eq!(max_chars_for(27), 1);
    assert_eq!(max_chars_for(0), 1);
    assert_eq!(max_chars_for(-500), 1);
    assert_eq!(max_chars_for(250), 30);
}

#[test]
fn wrap_greedy_lines() {
    assert_eq!(wrap_text("hello world foo", 100), vec!["hello", "world foo"]);
}

#[test]
fn wrap_empty_text_gives_one_empty_line() {
    assert_eq!(wrap_text("", 100), vec![""]);
    assert_eq!(wrap_text("   \t ", 100), vec![""]);
}

#[test]
fn wrap_keeps_paragraphs() {
    assert_eq!(wrap_text("a\n\nb", 100), vec!["a", "", "b"]);
    assert_eq!(wrap_text("a\n", 100), vec!["a", ""]);
}

#[test]
fn wrap_collapses_white_space() {
    assert_eq!(wrap_text("  a\t\tb  c ", 100), vec!["a b c"]);
    assert_eq!(wrap_text("a\r\nb", 100), vec!["a", "b"]);
}

#[test]
fn wrap_long_word_stands_alone() {
    assert_eq!(wrap_text("supercalifragilistic", 30), vec!["supercalifragilistic"]);
    assert_eq!(wrap_text("a b c", 0), vec!["a", "b", "c"]);
}

#[test]
fn wrap_counts_bytes_not_characters() {
    // Five bytes a line: "éé" takes four bytes, so two of them do not share a line.
    assert_eq!(wrap_text("éé éé", 58), vec!["éé", "éé"]);
    assert_eq!(wrap_text("ab cd", 58), vec!["ab cd"]);
}

#[test]
fn wrap_keeps_every_word_in_order() {
    let text = "the quick brown fox\njumps over\tthe lazy dog";
    let lines = wrap_text(text, 60);
    let from_lines: Vec<String> = lines
        .iter()
        .flat_map(|l| l.split_whitespace().map(|w| w.to_string()).collect::<Vec<_>>())
        .collect();
    let from_text: Vec<String> = text.split_whitespace().map(|w| w.to_string()).collect();
    assert_eq!(from_lines, from_text);
}

#[test]
fn wrapped_lines_fit_unless_single_word() {
    let text = "aa bbbbbbbbbbbb c dd eee ffff ggggg";
    let lines = wrap_text(text, 58);
    for l in &lines {
        assert!(l.split_whitespace().count() <= 1 || l.len() <= 5, "{l:?}");
    }
    assert_eq!(lines, vec!["aa", "bbbbbbbbbbbb", "c dd", "eee", "ffff", "ggggg"]);
}

fn unescape(s: &str) -> String {
    let mut out = String::new();
    let mut rest = s;
    while !rest.is_empty() {
        let mut matched = false;
        for (ent, c) in [("&amp;", '&'), ("&lt;", '<'), ("&gt;", '>'), ("&quot;", '"'), ("&apos;", '\'')] {
            if rest.starts_with(ent) {
                out.push(c);
                rest = &rest[ent.len()..];
                matched = true;
                break;
            }
        }
        if !matched {
            let c = rest.chars().next().unwrap();
            out.push(c);
            rest = &rest[c.len_utf8()..];
        }
    }
    out
}

#[test]
fn unescaping_escaped_text_gives_it_back() {
    for s in ["", "plain", "a<b>&c", "&amp; &lt;", "'\"'\"", "é & ü"] {
        assert_eq!(unescape(&escape_xml(s)), s);
    }
}

#[test]
fn wider_box_never_needs_more_lines() {
    let text = "one two three four five six seven eight nine ten\neleven twelve";
    let mut prev = usize::MAX;
    for w in [0, 30, 45, 60, 75, 90, 120, 200, 400, 1000] {
        let n = wrap_text(text, w).len();
        assert!(n <= prev, "width {w}: {n} > {prev}");
        prev = n;
    }
    assert_eq!(wrap_text(text, 0).len(), 12);
    assert_eq!(wrap_text(text, 1000).len(), 2);
}
