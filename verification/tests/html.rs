use vento_agent_runtime::file_parser::format::Format;
use vento_agent_runtime::file_parser::html::to_markdown;

fn md(html: &str) -> String {
    to_markdown(html.as_bytes(), "fallback").unwrap()
}

#[test]
fn converts_basic_html_to_markdown() {
    let html = r#"<!DOCTYPE html>
<html>
<head><title>Test Page</title></head>
<body>
  <h1>Main Title</h1>
  <p>Hello <strong>world</strong> and <em>everyone</em>.</p>
  <h2>Section</h2>
  <p>Some <a href="https://example.com">link</a> here.</p>
  <ul>
    <li>Item 1</li>
    <li>Item 2</li>
  </ul>
</body>
</html>"#;
    let out = md(html);
    assert!(out.contains("# Main Title"), "{out}");
    assert!(out.contains("**world**"), "{out}");
    assert!(out.contains("*everyone*"), "{out}");
    assert!(out.contains("## Section"), "{out}");
    assert!(out.contains("[link](https://example.com)"), "{out}");
    assert!(out.contains("- Item 1"), "{out}");
    assert!(out.contains("- Item 2"), "{out}");
    assert!(!out.contains("<h1>"), "{out}");
    assert!(!out.contains("<strong>"), "{out}");
}

#[test]
fn strips_script_and_style_tags() {
    let html = r#"<html>
<head><style>body { color: red; }</style></head>
<body>
  <script>alert('xss')</script>
  <p>Content here</p>
</body></html>"#;
    let out = md(html);
    assert!(!out.contains("alert"), "{out}");
    assert!(!out.contains("color: red"), "{out}");
    assert!(out.contains("Content here"), "{out}");
}

#[test]
fn handles_tables() {
    let html = r#"<html><body>
      <table>
        <tr><th>Name</th><th>Age</th></tr>
        <tr><td>Alice</td><td>30</td></tr>
        <tr><td>Bob</td><td>25</td></tr>
      </table>
    </body></html>"#;
    let out = md(html);
    assert!(out.contains("| Name | Age |"), "{out}");
    assert!(out.contains("| Alice | 30 |"), "{out}");
}

#[test]
fn handles_images_with_alt() {
    let out = md(r#"<html><body><img src="photo.jpg" alt="A photo"/></body></html>"#);
    assert!(out.contains("![A photo](photo.jpg)"), "{out}");
}

#[test]
fn handles_images_without_alt() {
    let out = md(r#"<html><body><img src="pic.png"/></body></html>"#);
    assert!(out.contains("![](pic.png)"), "{out}");
}

#[test]
fn handles_nested_inline_formatting() {
    let out =
        md(r#"<html><body><p><strong>bold <em>and italic</em></strong></p></body></html>"#);
    assert!(out.contains("**bold"), "{out}");
    assert!(out.contains("*and italic*"), "{out}");
}

#[test]
fn handles_multiple_heading_levels() {
    let out = md(
        "<html><body>\n<h1>H1</h1><h2>H2</h2><h3>H3</h3><h4>H4</h4><h5>H5</h5><h6>H6</h6>\n</body></html>",
    );
    for level in [
        "# H1",
        "## H2",
        "### H3",
        "#### H4",
        "##### H5",
        "###### H6",
    ] {
        assert!(out.contains(level), "missing {level} in {out}");
    }
}

#[test]
fn strips_nav_header_footer_noscript() {
    let html = r#"<html>
<header>Site Header</header>
<nav>Navigation Menu</nav>
<body><p>Main Content</p></body>
<footer>Site Footer</footer>
<noscript>JS Required</noscript>
</html>"#;
    let out = md(html);
    assert!(out.contains("Main Content"), "{out}");
    assert!(!out.contains("Site Header"), "{out}");
    assert!(!out.contains("Navigation Menu"), "{out}");
    assert!(!out.contains("Site Footer"), "{out}");
    assert!(!out.contains("JS Required"), "{out}");
}

#[test]
fn strips_html_comments() {
    let html = "<html><body>\n<p>Visible</p>\n<!-- This is a comment -->\n<p>Also visible</p>\n</body></html>";
    let out = md(html);
    assert!(out.contains("Visible"), "{out}");
    assert!(!out.contains("This is a comment"), "{out}");
}

#[test]
fn handles_horizontal_rules() {
    let out = md(r#"<html><body><p>A</p><hr/><p>B</p></body></html>"#);
    assert!(out.contains("---"), "{out}");
}

#[test]
fn handles_lists() {
    let out =
        md("<html><body>\n<ul><li>Unordered 1</li><li>Unordered 2</li></ul>\n</body></html>");
    assert!(out.contains("- Unordered 1"), "{out}");
    assert!(out.contains("- Unordered 2"), "{out}");
}

#[test]
fn uses_title_tag_as_heading_when_no_h1() {
    let out =
        md(r#"<html><head><title>Page Title</title></head><body><p>Content</p></body></html>"#);
    assert!(out.contains("# Page Title"), "{out}");
}

#[test]
fn falls_back_to_the_provided_title() {
    let out = to_markdown(b"<html><body><p>text</p></body></html>", "named-file").unwrap();
    assert!(out.contains("# named-file"), "{out}");
}

#[test]
fn decodes_entities() {
    let out = md(
        r#"<html><body><p>a &amp; b &lt;c&gt; &quot;d&quot; &#39;e&#39; &nbsp;f</p></body></html>"#,
    );
    // `&nbsp;` decodes to a plain space, coalescing with the one before
    // it — the tidy pass only trims line ends, never inline runs.
    assert!(out.contains("a & b <c> \"d\" 'e'  f"), "{out}");
}

#[test]
fn drops_unknown_named_entities() {
    let out = md(r#"<html><body><p>&copy; 2024</p></body></html>"#);
    assert!(out.contains("2024"), "{out}");
    assert!(!out.contains("&copy;"), "{out}");
}

#[test]
fn extension_routes_html_family() {
    for ext in ["html", "htm", "xhtml", "HTML"] {
        assert_eq!(Format::from_extension(ext), Some(Format::Html));
    }
    assert_eq!(Format::from_extension("txt"), None);
}
