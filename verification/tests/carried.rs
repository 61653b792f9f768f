use confcli::config::normalize_site_url;
use confcli::download::attachment_download_url;
use confcli::markdown::{html_to_markdown, postprocess_markdown, MarkdownOptions};
use confcli::pagination::next_link_from_headers;
use confcli::transport::retry_wait_from_headers;

fn headers(pairs: &[(&str, &str)]) -> Vec<(String, String)> {
    pairs.iter().map(|(k, v)| (k.to_string(), v.to_string())).collect()
}

#[test]
fn retry_wait_uses_retry_after_when_present() {
    let hs = headers(&[("retry-after", "5")]);
    let d = retry_wait_from_headers(&hs, 1);
    assert!(d >= 5000);
    assert!(d < 5250);
}

#[test]
fn retry_wait_falls_back_to_exponential_backoff() {
    let hs = headers(&[]);
    let d1 = retry_wait_from_headers(&hs, 1);
    let d2 = retry_wait_from_headers(&hs, 2);
    assert!(d1 >= 1000 && d1 < 1250);
    assert!(d2 >= 2000 && d2 < 2250);
}

#[test]
fn parses_next_link_from_headers() {
    let hs = headers(&[(
        "link",
        "<https://example.com/api?page=2>; rel=next, <https://example.com/api?page=5>; rel=last",
    )]);
    assert_eq!(
        next_link_from_headers(&hs),
        Some("https://example.com/api?page=2".to_string())
    );
}

#[test]
fn returns_none_when_no_next_link() {
    let hs = headers(&[("link", "<https://example.com/api?page=5>; rel=last")]);
    assert_eq!(next_link_from_headers(&hs), None);
}

#[test]
fn download_url_prepends_wiki_prefix() {
    let result = attachment_download_url(
        "https://example.atlassian.net/wiki",
        "/download/attachments/123/file.png?version=1&api=v2",
    )
    .unwrap();
    assert_eq!(
        result,
        "https://example.atlassian.net/wiki/download/attachments/123/file.png?version=1&api=v2"
    );
}

#[test]
fn download_url_no_prefix() {
    let result =
        attachment_download_url("https://example.com", "/download/attachments/123/file.png?version=1")
            .unwrap();
    assert_eq!(
        result,
        "https://example.com/download/attachments/123/file.png?version=1"
    );
}

#[test]
fn download_url_absolute() {
    let result =
        attachment_download_url("https://example.atlassian.net/wiki", "https://cdn.example.com/file.png")
            .unwrap();
    assert_eq!(result, "https://cdn.example.com/file.png");
}

#[test]
fn download_url_already_has_prefix() {
    let result = attachment_download_url(
        "https://example.atlassian.net/wiki",
        "/wiki/download/attachments/123/file.png?version=1",
    )
    .unwrap();
    assert_eq!(
        result,
        "https://example.atlassian.net/wiki/download/attachments/123/file.png?version=1"
    );
}

#[test]
fn normalize_site_url_cloud_defaults_to_wiki() {
    let url = normalize_site_url("example.atlassian.net").unwrap();
    assert_eq!(url, "https://example.atlassian.net/wiki");

    let url = normalize_site_url("https://example.atlassian.net").unwrap();
    assert_eq!(url, "https://example.atlassian.net/wiki");

    let url = normalize_site_url("https://example.atlassian.net/wiki").unwrap();
    assert_eq!(url, "https://example.atlassian.net/wiki");
}

#[test]
fn converts_panel_to_blockquote() {
    let html = r#"<div class="panel"><div class="panelContent">Hello</div></div>"#;
    let md = html_to_markdown(html, "https://example.com").unwrap();
    assert_eq!(md.trim(), "> Hello");
}

#[test]
fn strips_style_tags() {
    let html = r#"<style>body { color: red; }</style><p>Hi</p>"#;
    let md = html_to_markdown(html, "https://example.com").unwrap();
    assert_eq!(md.trim(), "Hi");
}

#[test]
fn decodes_unicode_escape_sequences() {
    let html = "<p>\\uD83D\\uDDD3 Date</p>";
    let md = html_to_markdown(html, "https://example.com").unwrap();
    assert_eq!(md.trim(), "\u{1F5D3} Date");
}

#[test]
fn adds_alt_text_from_alias() {
    let html = r#"<img data-linked-resource-default-alias="diagram.png" src="/wiki/download/diagram.png">"#;
    let md = html_to_markdown(html, "https://example.com/wiki").unwrap();
    assert_eq!(
        md.trim(),
        "![diagram.png](https://example.com/wiki/download/diagram.png)"
    );
}

#[test]
fn inserts_table_separator() {
    let md = postprocess_markdown(
        "| **Driver** | |\n| **Approver** | |",
        MarkdownOptions::default(),
    );
    assert_eq!(md, "| **Driver** | |\n| --- | --- |\n| **Approver** | |");
}

#[test]
fn replaces_separator_like_row() {
    let md = postprocess_markdown(
        "| **Notes** | |\n| ------------------- | |",
        MarkdownOptions::default(),
    );
    assert_eq!(md, "| **Notes** | |\n| --- | --- |");
}

#[test]
fn collapses_single_image_table() {
    let md = postprocess_markdown("| ![](image.webp) |\n| --- |", MarkdownOptions::default());
    assert_eq!(md, "![](image.webp)");
}
