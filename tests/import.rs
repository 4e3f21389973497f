use suwen_markdown::document::MarkdownKind;
use suwen_markdown::importer::{
    asset_requests, extract_slug, finish, prepare, strip_front_matter, Attachment, Attribute,
    ImportError, RawExport,
};
use suwen_markdown::manager::MarkdownManager;
use suwen_markdown::resolver::{download_target, fetch_url, resolve_outcome, FetchPool, FETCH_PERMITS};

fn attr(key: &str, value: Option<&str>) -> Attribute {
    Attribute { trait_type: key.to_string(), value: value.map(|v| v.to_string()) }
}

fn export(tags: &[&str], title: &str, content: &str, attributes: Vec<Attribute>, attachments: &[&str]) -> RawExport {
    RawExport {
        created_at: "2024-05-01T10:00:00+08:00".to_string(),
        updated_at: "2024-05-02T10:00:00+08:00".to_string(),
        published_at: "2024-05-03T10:00:00+08:00".to_string(),
        attachments: attachments
            .iter()
            .map(|a| Attachment { address: a.to_string(), name: "cover".to_string() })
            .collect(),
        attributes,
        content: content.to_string(),
        tags: tags.iter().map(|t| t.to_string()).collect(),
        title: title.to_string(),
    }
}

#[test]
fn end_to_end_article_without_assets() {
    let raw = export(&["post", "tech"], "T", "body text", vec![attr("xlog_slug", Some("t-slug"))], &[]);
    let prepared = prepare(raw).unwrap();
    assert!(prepared.is_article);
    assert_eq!(prepared.slug, "t-slug");
    assert!(asset_requests(&prepared).is_empty());
    let doc = finish(prepared, &vec![]).unwrap();
    assert_eq!(doc.slug, "t-slug");
    assert_eq!(doc.title, "T");
    match &doc.kind {
        MarkdownKind::Article { tags, toc } => {
            assert_eq!(tags, &vec!["tech".to_string()]);
            assert!(toc.is_empty());
        }
        MarkdownKind::Short => panic!("expected an article"),
    }
    assert_eq!(doc.content.trim(), "body text");
    let manager = MarkdownManager::new("out".to_string(), None);
    assert_eq!(manager.document_path(&doc.slug), "out/t-slug.md");
}

#[test]
fn dead_links_are_isolated() {
    let urls = ["https://h/1.png", "https://h/2.png", "https://h/3.png", "https://h/4.png", "https://h/5.png"];
    let stored = [Some("/out/objects/s-image-0.png"), None, Some("/out/objects/s-image-2.png"), None, Some("/out/objects/s-image-4.jpg")];
    let outcomes: Vec<String> = urls
        .iter()
        .zip(stored.iter())
        .map(|(u, s)| resolve_outcome(u, *s, "/out"))
        .collect();
    assert_eq!(
        outcomes,
        vec![
            "objects/s-image-0.png".to_string(),
            "$dead_link/https://h/2.png".to_string(),
            "objects/s-image-2.png".to_string(),
            "$dead_link/https://h/4.png".to_string(),
            "objects/s-image-4.jpg".to_string(),
        ]
    );
    let body = urls.iter().map(|u| format!("![i]({})\n\n", u)).collect::<String>();
    let raw = export(&["post"], "T", &body, vec![attr("xlog_slug", Some("s"))], &[]);
    let prepared = prepare(raw).unwrap();
    let requests = asset_requests(&prepared);
    assert_eq!(requests.len(), 5);
    assert_eq!(requests[3], ("https://h/4.png".to_string(), "s-image-3".to_string()));
    let table: Vec<(String, String)> = urls.iter().map(|u| u.to_string()).zip(outcomes.clone()).collect();
    let doc = finish(prepared, &table).unwrap();
    assert_eq!(doc.cover_images, outcomes);
    assert!(doc.content.contains("$dead_link/https://h/2.png"));
    assert!(doc.content.contains("objects/s-image-4.jpg"));
}

#[test]
fn short_keeps_its_body_and_takes_attachment_covers() {
    let raw = export(
        &["short", "ignored"],
        "S",
        "hello",
        vec![attr("other", Some("x")), attr("xlog_slug", Some("s1"))],
        &["https://h/a.png", ""],
    );
    let prepared = prepare(raw).unwrap();
    assert!(!prepared.is_article);
    let requests = asset_requests(&prepared);
    assert_eq!(
        requests,
        vec![
            ("https://h/a.png".to_string(), "s1-attachment-0".to_string()),
            (String::new(), "s1-attachment-1".to_string()),
        ]
    );
    let table = vec![("https://h/a.png".to_string(), "objects/s1-attachment-0.png".to_string())];
    let doc = finish(prepared, &table).unwrap();
    assert!(matches!(doc.kind, MarkdownKind::Short));
    assert_eq!(doc.cover_images, vec!["objects/s1-attachment-0.png".to_string()]);
    assert_eq!(doc.content, "hello");
}

#[test]
fn videos_are_numbered_across_fragments() {
    let body = "<video><source src=\"https://v/1.mp4\"><source src=\"https://v/2.mp4\"></video>\n\ntext\n\n<video><source src=\"https://v/3.mp4\"></video>\n";
    let raw = export(&["post"], "T", body, vec![attr("xlog_slug", Some("v"))], &[]);
    let prepared = prepare(raw).unwrap();
    let requests = asset_requests(&prepared);
    assert_eq!(
        requests,
        vec![
            ("https://v/1.mp4".to_string(), "v-video-0".to_string()),
            ("https://v/2.mp4".to_string(), "v-video-1".to_string()),
            ("https://v/3.mp4".to_string(), "v-video-2".to_string()),
        ]
    );
    let table = vec![
        ("https://v/1.mp4".to_string(), "objects/v-video-0.mp4".to_string()),
        ("https://v/2.mp4".to_string(), "$dead_link/https://v/2.mp4".to_string()),
    ];
    let doc = finish(prepared, &table).unwrap();
    assert!(doc.content.contains("objects/v-video-0.mp4"));
    assert!(doc.content.contains("src=\"https://v/2.mp4\""));
    assert!(!doc.content.contains("$dead_link"));
    assert!(doc.content.contains("controls"));
}

#[test]
fn unsupported_type_and_missing_slug_are_refused() {
    let raw = export(&["page"], "T", "x", vec![attr("xlog_slug", Some("s"))], &[]);
    assert_eq!(prepare(raw).err(), Some(ImportError::UnsupportedType));
    let raw = export(&[], "T", "x", vec![attr("xlog_slug", Some("s"))], &[]);
    assert_eq!(prepare(raw).err(), Some(ImportError::UnsupportedType));
    let raw = export(&["post"], "T", "x", vec![attr("xlog_slug", None)], &[]);
    assert_eq!(prepare(raw).err(), Some(ImportError::MissingSlug));
}

#[test]
fn slug_is_the_first_string_valued_slug_attribute() {
    let attrs = vec![attr("xlog_slug", None), attr("title", Some("x")), attr("xlog_slug", Some("b")), attr("xlog_slug", Some("c"))];
    assert_eq!(extract_slug(&attrs), Some("b".to_string()));
    assert_eq!(extract_slug(&vec![]), None);
}

#[test]
fn duplicate_front_matter_is_stripped() {
    assert_eq!(strip_front_matter("---\ntitle: x\n---\nbody"), "\nbody");
    assert_eq!(strip_front_matter("no front matter"), "no front matter");
    assert_eq!(strip_front_matter("a --- b"), "a --- b");
    assert_eq!(strip_front_matter("---\n: : [\n---\nbody"), "---\n: : [\n---\nbody");
}

#[test]
fn ipfs_links_go_through_the_gateway() {
    assert_eq!(fetch_url("ipfs://Qm123abc"), Some("https://ipfs.crossbell.io/ipfs/Qm123abc".to_string()));
    assert_eq!(fetch_url("https://h/a.png"), Some("https://h/a.png".to_string()));
    assert_eq!(fetch_url(""), None);
}

#[test]
fn download_target_takes_the_content_type_extension() {
    assert_eq!(download_target("objects/s-image-0", Some("image/png")), Some("objects/s-image-0.png".to_string()));
    assert_eq!(download_target("objects/s-image-0", None), None);
    assert_eq!(download_target("objects/s-image-0", Some("not a mime type")), None);
}

#[test]
fn outcome_outside_the_output_root_is_a_dead_link() {
    assert_eq!(resolve_outcome("https://h/a", Some("rel/a.png"), "/abs"), "$dead_link/https://h/a");
}

#[test]
fn pool_never_exceeds_its_permits() {
    let mut pool = FetchPool::new(FETCH_PERMITS);
    let mut pending = 20;
    let mut done = 0;
    let mut peak = 0;
    while done < 20 {
        while pending > 0 && pool.try_acquire() {
            pending -= 1;
            peak = peak.max(pool.in_flight);
        }
        assert!(pool.in_flight <= 8);
        pool.release();
        done += 1;
    }
    assert_eq!(peak, 8);
    assert_eq!(pool.in_flight, 0);
    assert!(!FetchPool { capacity: 8, in_flight: 8 }.try_acquire());
}

#[test]
fn a_broken_fragment_is_kept_and_the_document_still_imports() {
    let body = "<select><xmp><script>\"use strict\";</script></select>\n\n# Heading\n";
    let raw = export(&["post", "a", "b"], "T", body, vec![attr("xlog_slug", Some("m"))], &[]);
    let prepared = prepare(raw).unwrap();
    assert!(asset_requests(&prepared).is_empty());
    let doc = finish(prepared, &vec![]).unwrap();
    assert!(doc.content.contains("<select><xmp>"));
    match doc.kind {
        MarkdownKind::Article { tags, toc } => {
            assert_eq!(tags, vec!["a".to_string(), "b".to_string()]);
            assert_eq!(toc.len(), 1);
            assert_eq!(toc[0].id, "heading-1");
        }
        MarkdownKind::Short => panic!("expected an article"),
    }
}
