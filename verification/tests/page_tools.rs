// Site-name extraction, markup-to-markdown conversion, and theming.

use stash::metadata::{convert_html_to_md, extract_site};
use stash::theme::Theme;

#[test]
fn test_extract_site_removes_www() {
    assert_eq!(
        extract_site("https://www.example.com/article"),
        Some("example.com".to_string())
    );
}

#[test]
fn test_extract_site_keeps_subdomain() {
    assert_eq!(
        extract_site("https://api.github.com/repos"),
        Some("api.github.com".to_string())
    );
}

#[test]
fn test_extract_site_handles_port() {
    assert_eq!(
        extract_site("http://localhost:8080/path"),
        Some("localhost".to_string())
    );
}

#[test]
fn test_extract_site_handles_ip_address() {
    assert_eq!(
        extract_site("http://192.168.1.1/path"),
        Some("192.168.1.1".to_string())
    );
}

#[test]
fn test_extract_site_returns_none_for_invalid_url() {
    assert_eq!(extract_site("not-a-valid-url"), None);
}

#[test]
fn test_extract_site_handles_file_url() {
    assert_eq!(extract_site("file:///home/user/file.html"), None);
}

#[test]
fn test_extract_site_basic_domain() {
    assert_eq!(
        extract_site("https://example.com"),
        Some("example.com".to_string())
    );
}

#[test]
fn test_convert_html_to_md_basic_heading() {
    let html = "<h1>Hello World</h1>";
    let result = convert_html_to_md(html);
    assert!(result.is_some());
    assert!(result.unwrap().contains("Hello World"));
}

#[test]
fn test_convert_html_to_md_paragraph() {
    let html = "<p>This is a paragraph.</p>";
    let result = convert_html_to_md(html);
    assert!(result.is_some());
    assert!(result.unwrap().contains("This is a paragraph"));
}

#[test]
fn test_convert_html_to_md_link() {
    let html = r#"<a href="https://example.com">Example</a>"#;
    let result = convert_html_to_md(html);
    assert!(result.is_some());
}

#[test]
fn test_convert_html_to_md_empty_returns_none() {
    assert_eq!(convert_html_to_md(""), None);
}

#[test]
fn test_convert_html_to_md_whitespace_only_returns_none() {
    assert_eq!(convert_html_to_md("   \n  \t  "), None);
}

#[test]
fn test_convert_html_to_md_trims_whitespace() {
    let html = "  <p>Content</p>  ";
    let result = convert_html_to_md(html);
    assert!(result.is_some());
}

#[test]
fn test_convert_html_to_md_complex_structure() {
    let html = r#"
        <article>
            <h1>Title</h1>
            <p>First paragraph</p>
            <ul>
                <li>Item 1</li>
                <li>Item 2</li>
            </ul>
        </article>
    "#;
    let result = convert_html_to_md(html);
    assert!(result.is_some());
    let markdown = result.unwrap();
    assert!(markdown.contains("Title"));
    assert!(markdown.contains("First paragraph"));
}

#[test]
fn test_convert_html_to_md_strips_markup() {
    let html = "<p>Some <strong>bold</strong> text</p>";
    let result = convert_html_to_md(html).unwrap();
    assert!(!result.contains("<p>"));
    assert!(result.contains("**bold**"));
}

#[test]
fn test_theme_detection() {
    // Just ensure detection doesn't panic
    let _theme = Theme::detect();
}

#[test]
fn test_color_schemes() {
    let dark = Theme::Dark;
    let light = Theme::Light;

    assert_ne!(dark.unread_color(), light.unread_color());
    assert_ne!(dark.read_color(), light.read_color());
}
