//! Tests of the text normalizer, the renderer, and inline text rendering.

use codedpedia::component::inline::Inline;
use codedpedia::location::InternalPath;
use codedpedia::render::{Renderer, Text};

#[test]
fn newlines() {
    let mut renderer = Renderer::new(Text::new(4));
    renderer.write_str("abcd");
    renderer.write_str("  ");
    renderer.write_str("efg\n\n");
    renderer.write_str(" ");
    renderer.write_str("123\n\n");

    assert_eq!(renderer.into_output(), "abcd  efg\n\n 123\n");
}

#[test]
fn nest() {
    let mut renderer = Renderer::new(Text::new(4));
    renderer.write_str("abcdefg\n");

    renderer.nest_enter();
    renderer.write_str("123\n4567\nh\n");
    renderer.nest_exit();

    renderer.write_str("ijk\n");

    renderer.nest_enter();
    renderer.write_str("a1\nb\n");
    renderer.nest_enter();
    renderer.write_str("c\nd2\n");
    renderer.nest_enter();
    renderer.write_str("idk\nyeah\n");
    renderer.nest_exit();
    renderer.nest_exit();
    renderer.write_str("eee\n");
    renderer.nest_exit();

    assert_eq!(
        renderer.into_output(),
        "abcdefg\n123\n4567\nh\nijk\na1\nb\n    c\n    d2\n        idk\n        yeah\neee\n",
    );
}

#[test]
fn nest_twice_indents_two_steps() {
    let mut renderer = Renderer::new(Text::new(2));
    renderer.write_str("top\n");
    renderer.nest_enter();
    renderer.nest_enter();
    renderer.write_str("inner\n");
    renderer.nest_exit();
    renderer.nest_exit();
    renderer.write_str("back\n");

    assert_eq!(renderer.into_output(), "top\n  inner\nback\n");
}

#[test]
fn blank_line_between_writes_is_kept() {
    let mut renderer = Renderer::new(Text::new(4));
    renderer.write_str("a\n");
    renderer.write_str("\n");
    renderer.write_str("b\n");
    assert_eq!(renderer.into_output(), "a\n\nb\n");
}

#[test]
fn trailing_blank_lines_are_suppressed() {
    let mut renderer = Renderer::new(Text::new(4));
    renderer.write_str("a\n\n");
    assert_eq!(renderer.into_output(), "a\n");
}

fn text_node(s: &str) -> Inline {
    Inline::Text(String::from(s))
}

#[test]
fn render_str_as_html_simple() {
    let rendered = text_node("abc def g").to_html_string(&InternalPath::root());

    assert_eq!(rendered, "abc def g");
}

#[test]
fn render_str_as_html_escape() {
    let rendered = text_node("abc def \" g </> &").to_html_string(&InternalPath::root());

    assert_eq!(rendered, "abc def &quot; g &lt;&#47;&gt; &amp;");
}

#[test]
fn render_str_as_md_simple() {
    let rendered = text_node("abc def g").to_markdown_string(&InternalPath::root());

    assert_eq!(rendered, "abc def g");
}

#[test]
fn render_str_as_md_escape() {
    let rendered = text_node("abc def \" g </> &").to_markdown_string(&InternalPath::root());

    assert_eq!(rendered, "abc def &quot; g &lt;&#47;&gt; &amp;");
}

#[test]
fn render_str_as_text() {
    let rendered = text_node("abc def g").to_text_string(&InternalPath::root());

    assert_eq!(rendered, "abc def g");
}

#[test]
fn render_md_escapes_markdown_punctuation() {
    let rendered = text_node("a*b_c[d]").to_markdown_string(&InternalPath::root());

    assert_eq!(rendered, "a\\*b\\_c\\[d\\]");
}
