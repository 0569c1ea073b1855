use pipeline::index_page_detector::{classify_fetched_bytes, scan_anchor_density, IndexPageSignal};

#[test]
fn non_html_mime_returns_unknown() {
    let bytes = b"{\"price\": 123}";
    assert_eq!(
        classify_fetched_bytes(bytes, "application/json", "https://api.example/v1/x"),
        IndexPageSignal::Unknown
    );
}

#[test]
fn pdf_mime_returns_unknown() {
    let bytes = b"%PDF-1.7 fake";
    assert_eq!(
        classify_fetched_bytes(bytes, "application/pdf", "https://files.example/x.pdf"),
        IndexPageSignal::Unknown
    );
}

#[test]
fn empty_mime_falls_through_to_html_detection() {
    let body = "<html><body><p>".to_string()
        + &"This is a long-form prose paragraph that runs well above the prose floor. "
            .repeat(20)
        + "</p></body></html>";
    assert_eq!(
        classify_fetched_bytes(body.as_bytes(), "", "https://news.example/p/1234"),
        IndexPageSignal::Article
    );
}

#[test]
fn url_with_topic_token_scores_index_even_on_prose_body() {
    let body = "<html><body><p>".to_string()
        + &"Long article-shaped prose body well above the floor. ".repeat(20)
        + "</p></body></html>";
    assert_eq!(
        classify_fetched_bytes(
            body.as_bytes(),
            "text/html; charset=utf-8",
            "https://www.example.com/topic/aluminium",
        ),
        IndexPageSignal::Index
    );
}

#[test]
fn url_with_category_token_scores_index() {
    let body = "<html><body><p>".to_string()
        + &"Long article-shaped prose body well above the floor. ".repeat(20)
        + "</p></body></html>";
    assert_eq!(
        classify_fetched_bytes(
            body.as_bytes(),
            "text/html",
            "https://www.example.com/category/business",
        ),
        IndexPageSignal::Index
    );
}

#[test]
fn url_with_tag_token_scores_index() {
    let body = "<html><body><p>".to_string()
        + &"Long article-shaped prose body well above the floor. ".repeat(20)
        + "</p></body></html>";
    assert_eq!(
        classify_fetched_bytes(
            body.as_bytes(),
            "text/html",
            "https://news.example/tag/elections",
        ),
        IndexPageSignal::Index
    );
}

#[test]
fn url_token_match_is_case_insensitive() {
    let body = "<html><body><p>".to_string()
        + &"Long article-shaped prose body well above the floor. ".repeat(20)
        + "</p></body></html>";
    assert_eq!(
        classify_fetched_bytes(
            body.as_bytes(),
            "text/html",
            "https://www.example.com/TOPIC/Aluminium",
        ),
        IndexPageSignal::Index
    );
}

#[test]
fn url_token_does_not_partial_match_inside_segment() {
    let body = "<html><body><p>".to_string()
        + &"Long article-shaped prose body well above the floor. ".repeat(20)
        + "</p></body></html>";
    assert_eq!(
        classify_fetched_bytes(
            body.as_bytes(),
            "text/html",
            "https://news.example/microtopic/aluminium",
        ),
        IndexPageSignal::Article
    );
}

#[test]
fn high_link_density_body_scores_index() {
    let mut body = String::from("<html><body><nav>");
    for i in 0..30 {
        body.push_str(&format!(
            "<a href=\"/article-{i}\">Headline number {i} about a topic that interests readers</a> "
        ));
    }
    body.push_str("more text</nav></body></html>");
    assert_eq!(
        classify_fetched_bytes(
            body.as_bytes(),
            "text/html",
            "https://news.example/some/landing"
        ),
        IndexPageSignal::Index
    );
}

#[test]
fn low_link_density_prose_body_scores_article() {
    let body = "<html><body><nav><a href=/a>Home</a> <a href=/b>About</a> <a href=/c>Contact</a></nav><article><p>".to_string()
        + &"This is a long-form prose paragraph that runs well above the prose floor. ".repeat(30)
        + "</p></article></body></html>";
    assert_eq!(
        classify_fetched_bytes(
            body.as_bytes(),
            "text/html",
            "https://news.example/2026/05/17/some-article"
        ),
        IndexPageSignal::Article
    );
}

#[test]
fn very_short_body_with_links_scores_index() {
    let body = "<html><body>\
        <a href=/x1>One link</a>\
        <a href=/x2>Two link</a>\
        <a href=/x3>Three link</a>\
        <a href=/x4>Four link</a>\
        <a href=/x5>Five link</a>\
        </body></html>";
    assert_eq!(
        classify_fetched_bytes(
            body.as_bytes(),
            "text/html",
            "https://news.example/landing"
        ),
        IndexPageSignal::Index
    );
}

#[test]
fn very_short_empty_body_scores_unknown() {
    let body = "<html><body></body></html>";
    assert_eq!(
        classify_fetched_bytes(
            body.as_bytes(),
            "text/html",
            "https://news.example/landing"
        ),
        IndexPageSignal::Unknown
    );
}

#[test]
fn script_blocks_do_not_inflate_body_chars() {
    let mut body = String::from("<html><body><script>");
    body.push_str(&"{\"x\": ".repeat(500));
    body.push_str("</script>\n");
    for i in 0..5 {
        body.push_str(&format!(
            "<a href=\"/p-{i}\">Headline number {i}</a> "
        ));
    }
    body.push_str("</body></html>");
    assert_eq!(
        classify_fetched_bytes(
            body.as_bytes(),
            "text/html",
            "https://news.example/landing"
        ),
        IndexPageSignal::Index
    );
}

#[test]
fn label_strings_are_stable_snake_case() {
    assert_eq!(IndexPageSignal::Article.label(), "article");
    assert_eq!(IndexPageSignal::Index.label(), "index");
    assert_eq!(IndexPageSignal::Unknown.label(), "unknown");
}

#[test]
fn non_utf8_bytes_score_unknown() {
    let bytes: &[u8] = &[0xff, 0xfe, b'<', b'h', b'1', b'>', b'x', 0xff];
    assert_eq!(
        classify_fetched_bytes(bytes, "text/html", "https://example.com/x"),
        IndexPageSignal::Unknown
    );
}


#[test]
fn script_block_between_text_adds_to_neither_count() {
    let with_script = scan_anchor_density(b"intro<script>var s = '<a href=x>link</a>';</SCRIPT> <a href=\"/p\">tail</a>");
    let without = scan_anchor_density(b"intro <a href=\"/p\">tail</a>");
    assert_eq!(with_script, without);
}
