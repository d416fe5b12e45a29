use m1_doc::html::escaping::{attr_escape, html_escape, html_escape_into};
use m1_doc::html::links::rewrite_md_links;

#[test]
fn external_links_not_rewritten() {
    let html = r#"<a href="https://example.com/doc.md">ext</a>"#;
    let out = rewrite_md_links(html);
    assert_eq!(out, html, "external .md link must not be rewritten; got:\n{out}");
}

#[test]
fn relative_md_links_are_rewritten() {
    let html = r#"<a href="Root.Engine.md">Engine</a>"#;
    let out = rewrite_md_links(html);
    assert!(out.contains("href=\"Root.Engine.html\""), "got:\n{out}");
}

#[test]
fn md_link_with_fragment_is_rewritten() {
    let html = r#"<a href="Root.Engine.md#section">Engine</a>"#;
    let out = rewrite_md_links(html);
    assert!(out.contains("href=\"Root.Engine.html#section\""), "got:\n{out}");
}

#[test]
fn md_link_with_query_is_rewritten() {
    let html = r#"<a href="Root.Engine.md?v=1">Engine</a>"#;
    let out = rewrite_md_links(html);
    assert!(out.contains("href=\"Root.Engine.html?v=1\""), "got:\n{out}");
}

#[test]
fn text_and_attr_escapers_agree_except_on_double_quote() {
    let sample = "a & b <c> \"d\" e";
    for esc in [html_escape(sample), attr_escape(sample)] {
        assert!(esc.contains("&amp;"), "'&' not escaped in: {esc}");
        assert!(esc.contains("&lt;c&gt;"), "'<c>' not escaped in: {esc}");
        assert!(!esc.contains(" & "), "raw '&' survived in: {esc}");
    }
    assert!(html_escape(sample).contains('"'));
    assert!(!html_escape(sample).contains("&quot;"));
    assert!(attr_escape(sample).contains("&quot;"));
    assert!(!attr_escape(sample).contains('"'));
    assert_eq!(attr_escape(sample).replace("&quot;", "\""), html_escape(sample));
}

#[test]
fn attr_escape_leaves_spaces_verbatim() {
    assert_eq!(attr_escape("Root.A B"), "Root.A B");
}

#[test]
fn html_escape_into_appends_and_honours_attr_flag() {
    let mut out = String::from("pre:");
    html_escape_into(&mut out, "x \"y\" <z>", false);
    assert_eq!(out, "pre:x \"y\" &lt;z&gt;");

    let mut out = String::new();
    html_escape_into(&mut out, "x \"y\" <z>", true);
    assert_eq!(out, "x &quot;y&quot; &lt;z&gt;");
}
