use reflect_ai::strip_html;

#[test]
fn strip_html_leaves_out_scripts_and_tags() {
    let text = strip_html("<script>bad()</script><p>Hello <b>World</b></p>");
    assert_eq!(text, "Hello World");
    assert!(text.contains("Hello World"));
    assert!(!text.contains("bad"));
}

#[test]
fn strip_html_leaves_out_style_blocks() {
    let text = strip_html("<style>p { color: red; }</style><p>Plain</p>");
    assert_eq!(text, "Plain");
}

#[test]
fn strip_html_takes_capital_markers_as_small_ones() {
    assert_eq!(strip_html("<SCRIPT>var x = 1;</SCRIPT>kept"), "kept");
    assert_eq!(strip_html("<ScRiPt>var x = 1;</sCrIpT>kept"), "kept");
    assert_eq!(strip_html("<STYLE>a{}</STYLE>kept"), "kept");
}

#[test]
fn strip_html_turns_line_breaks_and_tabs_into_single_spaces() {
    assert_eq!(strip_html("one\ntwo\r\nthree\tfour"), "one two three four");
    assert_eq!(strip_html("  one   two  "), "one two");
    assert_eq!(strip_html("\n\t\r"), "");
}

#[test]
fn strip_html_puts_a_space_where_a_tag_ends() {
    assert_eq!(strip_html("a<br>b"), "a b");
    assert_eq!(strip_html("<p>a</p><p>b</p>"), "a b");
    assert_eq!(strip_html("1 > 0"), "1 0");
}

#[test]
fn strip_html_of_text_without_markup_is_the_text() {
    assert_eq!(strip_html("just text"), "just text");
    assert_eq!(strip_html(""), "");
}

#[test]
fn strip_html_drops_what_follows_an_open_tag() {
    assert_eq!(strip_html("before <a href"), "before");
    assert_eq!(strip_html("before <script>never closed"), "before");
}

#[test]
fn strip_html_does_not_decode_entities() {
    assert_eq!(strip_html("<p>Tom &amp; Jerry</p>"), "Tom &amp; Jerry");
}

#[test]
fn strip_html_keeps_characters_outside_ascii() {
    assert_eq!(strip_html("<p>Grüße aus Köln</p>"), "Grüße aus Köln");
    assert_eq!(strip_html("<b>日本語</b> テキスト"), "日本語 テキスト");
}

#[test]
fn strip_html_leaves_a_script_at_the_closing_marker() {
    assert_eq!(strip_html("<script>a</script>b<script>c</script>d"), "b d");
    assert_eq!(strip_html("<script>if (a > b) {}</script>after"), "after");
}

#[test]
fn strip_html_reads_a_style_inside_a_script_marker_by_marker() {
    assert_eq!(strip_html("<style>x</style><script>y</script>z"), "z");
    assert_eq!(strip_html("<scriptx>y</scriptx>z"), "z");
}
