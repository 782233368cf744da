use alx::markdown::{filter_attribute, markdown_inline, render_markdown};

#[test]
fn render_markdown_keeps_language_classes_on_code_blocks() {
    let html = render_markdown(
        "```rust\nfn main() {}\n```\n\n```mermaid\ngraph TD\n```\n\n```\nplain\n```",
    );
    assert!(html.contains("<code class=\"language-rust\">"));
    assert!(html.contains("<code class=\"language-mermaid\">"));
    assert!(html.contains("<code>plain\n</code>"));
}

#[test]
fn render_markdown_strips_foreign_classes_on_code_blocks() {
    let html = render_markdown(
        "<code class=\"language-rust evil\">x</code><span class=\"evil\">y</span>",
    );
    assert!(html.contains("<code class=\"language-rust\">x</code>"));
    assert!(!html.contains("evil"));
    let html = render_markdown(
        "<code title='a class=' class='x language-a&amp;b\tlanguage-c'>x</code><p title=' class='>y</p>",
    );
    assert!(html.contains(" class=\"language-a&amp;b language-c\""));
    assert!(html.contains("<p title=\" class=\">y</p>"));
    assert_eq!(render_markdown("<code class='x'>y</code>"), "<p><code>y</code></p>\n");
}

#[test]
fn rendered_markdown_is_sanitized_and_loads_no_images() {
    let html = render_markdown(
        "# Safe\n<script>alert(1)</script>\n[bad](javascript:alert(1))\n![tracker](https://example.invalid/pixel)\n\n```mermaid\ngraph TD\n  A --> B\n```",
    );
    assert!(html.contains("<h1>Safe</h1>"));
    assert!(!html.contains("<script"));
    assert!(!html.contains("javascript:"));
    assert!(!html.contains("<img"));
    assert!(!html.contains("example.invalid"));
    assert!(html.contains("class=\"language-mermaid\""));
    assert!(html.contains("graph TD"));
    assert_eq!(render_markdown("Body"), "<p>Body</p>\n");
    assert!(!render_markdown("<p title=\"<img >\">x</p>").contains("<img"));
    assert!(!render_markdown("<a href=\"JavaScript:x\" title='<script'>y</a>").contains("<script"));
    assert!(!render_markdown("<a HREF=\" JavaScript:x\">y</a>").contains("href"));
    assert!(!render_markdown("<svg><img src=x></svg> <IMG src=x>").contains("<img"));
}

#[test]
fn attributes_are_filtered() {
    assert_eq!(
        filter_attribute("code", "class", " a language-x\tlanguage-y\u{a0}z language"),
        Some("language-x language-y\u{a0}z".to_owned())
    );
    assert_eq!(filter_attribute("code", "class", "a b"), None);
    assert_eq!(filter_attribute("a", "class", "a b"), Some("a b".to_owned()));
    assert_eq!(filter_attribute("code", "title", "a b"), Some("a b".to_owned()));
}

#[test]
fn inline_text_is_escaped_and_stays_on_one_line() {
    assert_eq!(
        markdown_inline("a\nb\rc\\`*_[]<>d#"),
        "a b c\\\\\\`\\*\\_\\[\\]\\<\\>d#"
    );
}
