use trivia_quiz::util::escape_html;

#[test]
fn decodes_each_entity_of_the_table() {
    assert_eq!(escape_html("&lt;"), "<");
    assert_eq!(escape_html("&gt;"), ">");
    assert_eq!(escape_html("&quot;"), "\"");
    assert_eq!(escape_html("&#039;"), "'");
    assert_eq!(escape_html("&amp;"), "&");
    assert_eq!(escape_html("&eacute;"), "\u{e9}");
}

#[test]
fn decodes_an_escaped_ampersand_only_once() {
    assert_eq!(escape_html("&amp;lt;"), "&lt;");
    assert_eq!(escape_html("&amp;amp;"), "&amp;");
    assert_eq!(escape_html("&amp;eacute;"), "&eacute;");
    assert_eq!(escape_html("&amp;#039;"), "&#039;");
}

#[test]
fn leaves_plain_text_as_it_is() {
    assert_eq!(escape_html(""), "");
    assert_eq!(escape_html("What is 2 + 2?"), "What is 2 + 2?");
    assert_eq!(escape_html("caf\u{e9} \u{4e16}\u{754c}"), "caf\u{e9} \u{4e16}\u{754c}");
}

#[test]
fn leaves_unknown_and_unfinished_escapes() {
    assert_eq!(escape_html("&"), "&");
    assert_eq!(escape_html("&lt"), "&lt");
    assert_eq!(escape_html("&l&lt;"), "&l<");
    assert_eq!(escape_html("&nbsp;"), "&nbsp;");
    assert_eq!(escape_html("&LT;"), "&LT;");
    assert_eq!(escape_html("&#39;"), "&#39;");
    assert_eq!(escape_html("&quot"), "&quot");
    assert_eq!(escape_html("&eacute"), "&eacute");
}

#[test]
fn decodes_entities_inside_a_sentence() {
    assert_eq!(
        escape_html("Which of &quot;A&quot; &amp; &quot;B&quot; is &lt; 3 &gt; 1?"),
        "Which of \"A\" & \"B\" is < 3 > 1?"
    );
    assert_eq!(escape_html("It&#039;s Pok&eacute;mon"), "It's Pok\u{e9}mon");
    assert_eq!(escape_html("&lt;&lt;&gt;&gt;"), "<<>>");
}

fn escape(text: &str) -> String {
    let mut out = String::new();
    for c in text.chars() {
        match c {
            '<' => out.push_str("&lt;"),
            '>' => out.push_str("&gt;"),
            '"' => out.push_str("&quot;"),
            '\'' => out.push_str("&#039;"),
            '&' => out.push_str("&amp;"),
            '\u{e9}' => out.push_str("&eacute;"),
            other => out.push(other),
        }
    }
    out
}

#[test]
fn decoding_undoes_escaping() {
    let samples = [
        "",
        "plain",
        "<b>\"Tom & Jerry\"</b>",
        "&lt; is how < is written",
        "&amp;amp;",
        "caf\u{e9}'s & more; &",
        "&&&;;;",
    ];
    for sample in samples {
        assert_eq!(escape_html(&escape(sample)), sample);
    }
}

#[test]
fn decoding_a_text_without_entities_twice_changes_nothing() {
    let once = escape_html("a &lt; b &gt; c");
    assert_eq!(once, "a < b > c");
    assert_eq!(escape_html(&once), once);
}

fn replaced_in_order(text: &str) -> String {
    text.replace("&lt;", "<")
        .replace("&gt;", ">")
        .replace("&quot;", "\"")
        .replace("&#039;", "'")
        .replace("&eacute;", "\u{e9}")
        .replace("&amp;", "&")
}

#[test]
fn decoding_is_replacing_entity_by_entity_with_the_ampersand_last() {
    let samples = [
        "",
        "&amp;lt;",
        "&amp;amp;lt;",
        "&&lt;&",
        "&l&lt;t;",
        "&amp&amp;;",
        "&quot;&amp;quot;&#039;&amp;#039;",
        "Pok&eacute;mon &amp;eacute; &lt;b&gt;",
        "a &lt b &gt; c &am&amp;p;",
    ];
    for sample in samples {
        assert_eq!(escape_html(sample), replaced_in_order(sample));
    }
}
