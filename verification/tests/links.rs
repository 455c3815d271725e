use system_design::links::{
    classify_link, extract_links, group_links, join_words, resolve_link, LinkKind,
};

#[test]
fn join_with_spaces() {
    assert_eq!(join_words(&vec![]), "");
    assert_eq!(join_words(&vec!["a".to_string()]), "a");
    assert_eq!(join_words(&vec!["a".to_string(), "b".to_string(), "c".to_string()]), "a b c");
}

#[test]
fn links_are_grouped_with_distinct_texts() {
    let html = r#"<html><body>
        <a href="/about">About Us</a>
        <a href="https://x.com/p">X <b>bold</b></a>
        <a href="/about">About</a>
        <a>no link</a>
        <a href="/about">About Us</a>
    </body></html>"#;
    let links = extract_links(html);
    assert_eq!(links.len(), 2);
    assert_eq!(links[0].0, "/about");
    assert_eq!(links[0].1, vec!["About Us".to_string(), "About".to_string()]);
    assert_eq!(links[1].0, "https://x.com/p");
    assert_eq!(links[1].1, vec!["X  bold".to_string()]);
}

#[test]
fn page_without_links() {
    assert!(extract_links("<p>nothing</p>").is_empty());
}

#[test]
fn link_kinds() {
    assert_eq!(classify_link("/contact"), LinkKind::Relative);
    assert_eq!(classify_link("https://a.b"), LinkKind::Absolute);
    assert_eq!(classify_link("http://a.b"), LinkKind::Absolute);
    assert_eq!(classify_link("mailto:x@y"), LinkKind::Invalid);
    assert_eq!(classify_link(""), LinkKind::Invalid);
    assert_eq!(resolve_link("https://www.phonepe.com", "/careers"), Some("https://www.phonepe.com/careers".to_string()));
    assert_eq!(resolve_link("https://b", "http://a.b/c"), Some("http://a.b/c".to_string()));
    assert_eq!(resolve_link("https://b", "#top"), None);
}

#[test]
fn grouping_anchors() {
    let anchors = vec![
        (Some("/a".to_string()), vec!["One".to_string(), "Two".to_string()]),
        (None, vec!["skipped".to_string()]),
        (Some("/b".to_string()), vec![]),
        (Some("/a".to_string()), vec!["One Two".to_string()]),
        (Some("/a".to_string()), vec!["Three".to_string()]),
    ];
    let links = group_links(&anchors);
    assert_eq!(
        links,
        vec![
            ("/a".to_string(), vec!["One Two".to_string(), "Three".to_string()]),
            ("/b".to_string(), vec!["".to_string()]),
        ]
    );
}
