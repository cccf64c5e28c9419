use cairn::fetch::{
    collapse_whitespace, extract_article, extract_year, fetch_request, fetch_result, parse_html,
    split_authors,
};

const PAGE: &str = r#"<html><head>
<title>  Fallback
  Title </title>
<meta property="og:title" content="  The   Real Title ">
<meta name="description" content="A page about things.">
<meta property="og:site_name" content="Example Site">
<meta name="author" content="Jane Doe and John Roe">
<meta property="article:author" content="John Roe">
<meta property="article:published_time" content="2023-04-05T00:00:00Z">
</head><body><p>Hello</p></body></html>"#;

#[test]
fn page_metadata_is_read_from_meta_tags() {
    let b = parse_html(PAGE);
    assert_eq!(b.title, "The Real Title");
    assert_eq!(b.description, Some("A page about things.".to_string()));
    assert_eq!(b.site, Some("Example Site".to_string()));
    assert_eq!(b.authors, vec!["Jane Doe".to_string(), "John Roe".to_string()]);
    assert_eq!(b.year, Some(2023));
    assert_eq!(b.url, "");
    assert!(b.tags.is_empty() && b.added.is_none());
}

#[test]
fn title_element_is_the_last_resort() {
    let b = parse_html("<html><head><title>\n A  page \n</title></head></html>");
    assert_eq!(b.title, "A page");
    assert_eq!(b.description, None);
    let b = parse_html("<p>no head</p>");
    assert_eq!(b.title, "");
}

#[test]
fn blank_meta_values_are_ignored() {
    let b = parse_html(
        r#"<meta property="og:title" content="   "><meta name="title" content="Named">"#,
    );
    assert_eq!(b.title, "Named");
}

#[test]
fn author_fields_are_split() {
    assert_eq!(split_authors("A; B ;; C"), vec!["A", "B", "C"]);
    assert_eq!(split_authors("A and B"), vec!["A", "B"]);
    assert_eq!(split_authors("A, B, C"), vec!["A", "B", "C"]);
    assert_eq!(split_authors("Doe, Jane"), vec!["Doe, Jane"]);
    assert!(split_authors("   ").is_empty());
}

#[test]
fn years_in_dates() {
    assert_eq!(extract_year("2023-04-05"), Some(2023));
    assert_eq!(extract_year("Published 12345 in 1999"), Some(1999));
    assert_eq!(extract_year("0042-01-01"), None);
    assert_eq!(extract_year("3000"), None);
    assert_eq!(extract_year("19"), None);
}

#[test]
fn whitespace_collapses() {
    assert_eq!(collapse_whitespace("  a \t b\n\nc "), "a b c");
    assert_eq!(collapse_whitespace(""), "");
}

#[test]
fn fetched_bookmark_is_completed() {
    let req = fetch_request("https://Example.com/a?b=1").unwrap();
    assert_eq!(req.url, "https://example.com/a?b=1");
    assert_eq!(req.site, "example.com");
    let r = fetch_result(&req, "<p>nothing</p>".to_string(), "2026-01-01");
    assert_eq!(r.bookmark.url, "https://example.com/a?b=1");
    assert_eq!(r.bookmark.title, "https://example.com/a?b=1");
    assert_eq!(r.bookmark.site, Some("example.com".to_string()));
    assert_eq!(r.bookmark.added, Some("2026-01-01".to_string()));
    assert_eq!(r.html, "<p>nothing</p>");
    let r = fetch_result(&req, PAGE.to_string(), "2026-01-01");
    assert_eq!(r.bookmark.title, "The Real Title");
    assert_eq!(r.bookmark.site, Some("Example Site".to_string()));
    assert!(fetch_request("not a url").is_err());
}

#[test]
fn article_needs_a_valid_url() {
    assert_eq!(extract_article("<p>text</p>", "not a url"), None);
}

#[test]
fn article_text_is_extracted() {
    let html = r#"<html><head><title>Essay</title></head><body>
<nav><a href="/">Home</a></nav>
<article><h1>On Verified Bookmarks</h1>
<p>Bookmarks are directories, and each directory holds a metadata file that describes the page it keeps. This paragraph is long enough to be taken as the content of the page by a readability algorithm.</p>
<p>A second paragraph follows, with more sentences about libraries, search indexes and the filesystem as the source of truth for every saved page.</p>
</article></body></html>"#;
    let text = extract_article(html, "https://example.com/essay").unwrap();
    assert!(text.contains("Bookmarks are directories"));
    assert_eq!(text.trim(), text);
}
