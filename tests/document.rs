use suwen_markdown::document::{frame_document, split_document, DocumentError, Markdown, MarkdownKind};
use suwen_markdown::event::{parse_markdown, serialize_markdown, MdEvent};
use suwen_markdown::html::{collect_videos, rename_sources, rewrite_html};
use suwen_markdown::toc::build_toc;

fn article(slug: &str, content: &str, covers: &[&str]) -> Markdown {
    Markdown {
        kind: MarkdownKind::Article { tags: vec!["tech".to_string()], toc: vec![] },
        slug: slug.to_string(),
        title: "T".to_string(),
        cover_images: covers.iter().map(|s| s.to_string()).collect(),
        content: content.to_string(),
        created_at: "2024-01-01T00:00:00+08:00".to_string(),
        updated_at: "2024-01-02T00:00:00+08:00".to_string(),
        published_at: "2024-01-03T00:00:00+08:00".to_string(),
    }
}

#[test]
fn document_file_round_trip() {
    let metadata = "{\n  \"type\": \"article\",\n  \"slug\": \"a---b\"\n}";
    let body = "# Title\n\n---\n\nbody after a rule\n";
    let framed = frame_document(metadata, body);
    assert_eq!(framed, format!("---\n{}\n---\n{}", metadata, body));
    let (m, b) = split_document(&framed).unwrap();
    assert_eq!(m, format!("{}\n", metadata));
    assert_eq!(b, body);
}

#[test]
fn document_without_metadata_is_refused() {
    assert_eq!(split_document("just a body"), Err(DocumentError::MissingMetadata));
    assert_eq!(split_document("---\nonly one block"), Err(DocumentError::MissingMetadata));
    assert_eq!(split_document("---\n---\n"), Ok((String::new(), String::new())));
}

#[test]
fn toc_levels_follow_heading_depth() {
    let events = parse_markdown("# A\n\n## B\n\n## C\n\n### D\n\n# E\n");
    let toc = build_toc(&events);
    let levels: Vec<usize> = toc.iter().map(|t| t.level).collect();
    assert_eq!(levels, vec![0, 1, 1, 2, 0]);
    let ids: Vec<&str> = toc.iter().map(|t| t.id.as_str()).collect();
    assert_eq!(ids, vec!["heading-1", "heading-2", "heading-3", "heading-4", "heading-5"]);
    let texts: Vec<&str> = toc.iter().map(|t| t.text.as_str()).collect();
    assert_eq!(texts, vec!["A", "B", "C", "D", "E"]);
}

#[test]
fn toc_skips_headings_without_text_but_counts_them() {
    let events = parse_markdown("# \n\n## Sub `code`\n\n### Deep\n\n## Next\n");
    let toc = build_toc(&events);
    let entries: Vec<(String, String, usize)> =
        toc.into_iter().map(|t| (t.id, t.text, t.level)).collect();
    assert_eq!(
        entries,
        vec![
            ("heading-2".to_string(), "Sub code".to_string(), 0),
            ("heading-3".to_string(), "Deep".to_string(), 1),
            ("heading-4".to_string(), "Next".to_string(), 0),
        ]
    );
}

#[test]
fn toc_of_a_body_without_headings_is_empty() {
    assert!(build_toc(&parse_markdown("body text")).is_empty());
}

#[test]
fn html_block_lines_are_joined() {
    let events = parse_markdown("<div>\n<p>x</p>\n</div>\n\ntext\n");
    let html: Vec<&String> = events
        .iter()
        .filter_map(|e| if let MdEvent::Html(h) = e { Some(h) } else { None })
        .collect();
    assert_eq!(html, vec!["<div>\n<p>x</p>\n</div>\n"]);
}

#[test]
fn inline_html_runs_are_joined() {
    let events = parse_markdown("a <video><source src=\"x.mp4\"></video> b\n");
    let inline: Vec<&String> = events
        .iter()
        .filter_map(|e| if let MdEvent::InlineHtml(h) = e { Some(h) } else { None })
        .collect();
    assert_eq!(inline, vec!["<video><source src=\"x.mp4\"></video>"]);
}

#[test]
fn markdown_round_trips_through_events() {
    let text = "# Title\n\nSome *text* and ![alt](/objects/a-image-0.png).\n";
    let out = serialize_markdown(&parse_markdown(text)).unwrap();
    let again = serialize_markdown(&parse_markdown(&out)).unwrap();
    assert_eq!(out, again);
    assert!(out.contains("/objects/a-image-0.png"));
}

#[test]
fn video_sources_are_collected_and_rewritten() {
    let html = "<video><source src=\"https://x.org/v.mp4\"></video>";
    assert_eq!(collect_videos(html), Some(vec!["https://x.org/v.mp4".to_string()]));
    let table = vec![("https://x.org/v.mp4".to_string(), "objects/s-video-0.mp4".to_string())];
    let out = rewrite_html(html, &table).unwrap();
    assert!(out.contains("src=\"objects/s-video-0.mp4\""));
    assert!(out.contains("controls"));
    let untouched = rewrite_html("<video><source src=\"y.mp4\"></video>", &table).unwrap();
    assert!(untouched.contains("src=\"y.mp4\""));
}

#[test]
fn sources_move_to_the_new_slug() {
    let html = "<video controls=\"true\"><source src=\"objects/old-video-0.mp4\"></video>";
    let out = rename_sources(html, "old", "new").unwrap();
    assert!(out.contains("objects/new-video-0.mp4"));
    assert!(!out.contains("old-video"));
}

#[test]
fn rename_slug_rewrites_an_article() {
    let mut doc = article(
        "old",
        "Text ![x](objects/old-image-0.png)\n\n<video><source src=\"objects/old-video-0.mp4\"></video>\n",
        &["objects/old-attachment-0.png", "https://elsewhere/a.png"],
    );
    doc.rename_slug("new").unwrap();
    assert_eq!(doc.slug, "new");
    assert_eq!(
        doc.cover_images,
        vec!["objects/new-attachment-0.png".to_string(), "https://elsewhere/a.png".to_string()]
    );
    assert!(doc.content.contains("objects/new-image-0.png"));
    assert!(doc.content.contains("objects/new-video-0.mp4"));
    assert!(!doc.content.contains("old-"));
    assert_eq!(doc.title, "T");
}

#[test]
fn rename_slug_keeps_a_short_body() {
    let mut doc = article("old", "![x](objects/old-image-0.png)", &["objects/old-image-0.png"]);
    doc.kind = MarkdownKind::Short;
    doc.rename_slug("new").unwrap();
    assert_eq!(doc.content, "![x](objects/old-image-0.png)");
    assert_eq!(doc.cover_images, vec!["objects/new-image-0.png".to_string()]);
}

#[test]
fn replace_images_maps_covers_and_body() {
    let mut doc = article("s", "![x](images/s-image-0.png)\n", &["images/s-image-0.png", "images/s-image-1.gif"]);
    let table = vec![("images/s-image-0.png".to_string(), "images/s-image-0.webp".to_string())];
    doc.replace_images(&table).unwrap();
    assert_eq!(
        doc.cover_images,
        vec!["images/s-image-0.webp".to_string(), "images/s-image-1.gif".to_string()]
    );
    assert!(doc.content.contains("images/s-image-0.webp"));
    assert_eq!(doc.slug(), "s");
}

#[test]
fn ambiguous_html_fails_only_its_own_rewrite() {
    let html = "<select><xmp><script>\"use strict\";</script></select>";
    assert_eq!(collect_videos(html), None);
    assert_eq!(rewrite_html(html, &vec![]), None);
    let mut doc = article("old", &format!("{}\n\ntext\n", html), &["objects/old-image-0.png"]);
    assert_eq!(doc.rename_slug("new"), Err(DocumentError::MalformedHtml));
    assert_eq!(doc.slug, "old");
    assert_eq!(doc.cover_images, vec!["objects/old-image-0.png".to_string()]);
}

#[test]
fn rename_moves_only_the_slug_segment_of_the_file_name() {
    let mut doc = article(
        "t",
        "![x](objects/t-image-0.png)\n\n![y](https://t.example/t/other.png)\n",
        &["objects/t-attachment-0.png", "objects/tt-image-0.png"],
    );
    doc.rename_slug("n").unwrap();
    assert_eq!(
        doc.cover_images,
        vec!["objects/n-attachment-0.png".to_string(), "objects/tt-image-0.png".to_string()]
    );
    assert!(doc.content.contains("objects/n-image-0.png"));
    assert!(doc.content.contains("https://t.example/t/other.png"));
}

#[test]
fn checked_frame_refuses_metadata_with_a_delimiter_line() {
    let ok = suwen_markdown::document::frame_document_checked("{\"a\": 1}", "body\n---\nmore");
    assert_eq!(ok, Some("---\n{\"a\": 1}\n---\nbody\n---\nmore".to_string()));
    assert_eq!(split_document(&ok.unwrap()).unwrap().1, "body\n---\nmore");
    assert_eq!(suwen_markdown::document::frame_document_checked("x\n---", "b"), None);
    assert_eq!(suwen_markdown::document::frame_document_checked("x---", "b"), None);
    assert_eq!(suwen_markdown::document::frame_document_checked("x--", "b"), Some("---\nx--\n---\nb".to_string()));
}
