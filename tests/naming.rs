use suwen_markdown::naming::{
    asset_stem, dead_link, decimal_string, extract_image_slug, extract_image_slug_from_file_name,
    plan_asset_renames, AssetKind,
};
use suwen_markdown::importer::{prepare_formatted, Attribute, RawExport};
use suwen_markdown::naming::move_reference;
use suwen_markdown::text::{replace_first_exec, splitn3_exec, starts_with};

#[test]
fn slug_is_what_precedes_the_second_to_last_dash() {
    assert_eq!(
        extract_image_slug_from_file_name("my-post-image-0.png"),
        Some("my-post".to_string())
    );
    assert_eq!(
        extract_image_slug_from_file_name("a-attachment-12.webp"),
        Some("a".to_string())
    );
    assert_eq!(extract_image_slug_from_file_name("-image-0.png"), Some(String::new()));
    assert_eq!(extract_image_slug_from_file_name("image-0.png"), None);
    assert_eq!(extract_image_slug_from_file_name("plain.png"), None);
    assert_eq!(extract_image_slug_from_file_name(""), None);
}

#[test]
fn slug_of_a_path_reads_its_file_name() {
    assert_eq!(
        extract_image_slug("out/images/go-generics-image-3.jpg"),
        Some("go-generics".to_string())
    );
    assert_eq!(extract_image_slug("a-b-c/plain.png"), None);
    assert_eq!(extract_image_slug("x-image-1.png"), Some("x".to_string()));
}

#[test]
fn asset_stems_follow_the_convention() {
    assert_eq!(asset_stem("t-slug", AssetKind::Attachment, 0), "t-slug-attachment-0");
    assert_eq!(asset_stem("t-slug", AssetKind::Image, 12), "t-slug-image-12");
    assert_eq!(asset_stem("s", AssetKind::Video, 305), "s-video-305");
    assert_eq!(
        extract_image_slug_from_file_name(&(asset_stem("my-post", AssetKind::Image, 7) + ".png")),
        Some("my-post".to_string())
    );
}

#[test]
fn decimal_text() {
    assert_eq!(decimal_string(0), "0");
    assert_eq!(decimal_string(9), "9");
    assert_eq!(decimal_string(10), "10");
    assert_eq!(decimal_string(1234567), "1234567");
    assert_eq!(decimal_string(usize::MAX), usize::MAX.to_string());
}

#[test]
fn dead_link_marker() {
    assert_eq!(dead_link("https://x.org/a.png"), "$dead_link/https://x.org/a.png");
    assert_eq!(dead_link(""), "$dead_link/");
}

#[test]
fn replace_first_replaces_only_the_first_occurrence() {
    assert_eq!(replace_first_exec("a-a-a", "a", "b"), "b-a-a");
    assert_eq!(replace_first_exec("/objects/old-image-0.png", "old", "new"), "/objects/new-image-0.png");
    assert_eq!(replace_first_exec("abc", "x", "y"), "abc");
    assert_eq!(replace_first_exec("abc", "", "y"), "yabc");
    assert_eq!(replace_first_exec("", "a", "y"), "");
    assert_eq!(replace_first_exec("中文-文", "文", "字"), "中字-文");
}

#[test]
fn splitn3_cuts_at_the_first_two_separators() {
    assert_eq!(splitn3_exec("a---b---c---d", "---"), vec!["a", "b", "c---d"]);
    assert_eq!(splitn3_exec("a---b", "---"), vec!["a", "b"]);
    assert_eq!(splitn3_exec("ab", "---"), vec!["ab"]);
    assert_eq!(splitn3_exec("------", "---"), vec!["", "", ""]);
}

#[test]
fn prefix_test() {
    assert!(starts_with("$dead_link/x", "$dead_link/"));
    assert!(!starts_with("x$dead_link/", "$dead_link/"));
    assert!(starts_with("abc", ""));
}

#[test]
fn rename_moves_only_the_assets_of_the_old_slug() {
    let names = vec![
        "a-image-0.png".to_string(),
        "a-video-1.mp4".to_string(),
        "ab-image-0.png".to_string(),
        "a-b-image-0.png".to_string(),
        "b-attachment-2.jpg".to_string(),
        "a-attachment-0.webp".to_string(),
    ];
    let plan = plan_asset_renames(&names, "a", "b");
    assert_eq!(
        plan,
        vec![
            ("a-image-0.png".to_string(), "b-image-0.png".to_string()),
            ("a-video-1.mp4".to_string(), "b-video-1.mp4".to_string()),
            ("a-attachment-0.webp".to_string(), "b-attachment-0.webp".to_string()),
        ]
    );
    for (from, to) in &plan {
        assert_eq!(extract_image_slug_from_file_name(to), Some("b".to_string()));
        assert_eq!(&from[1..], &to[1..]);
    }
}

#[test]
fn slug_asset_binding_after_rename() {
    let names: Vec<String> = ["a-image-0.png", "a-image-1.jpg", "a-video-0.mp4", "c-image-0.png"]
        .iter()
        .map(|s| s.to_string())
        .collect();
    let plan = plan_asset_renames(&names, "a", "b");
    let mut after: Vec<String> = names
        .iter()
        .filter(|n| !plan.iter().any(|(from, _)| from == *n))
        .cloned()
        .collect();
    after.extend(plan.iter().map(|(_, to)| to.clone()));
    assert!(after.iter().all(|n| !n.starts_with("a-")));
    for old in names.iter().filter(|n| n.starts_with("a-")) {
        let moved = format!("b-{}", &old[2..]);
        assert!(after.contains(&moved));
    }
}

#[test]
fn references_move_by_their_slug_segment() {
    assert_eq!(move_reference("objects/t-image-0.png", "t", "n"), "objects/n-image-0.png");
    assert_eq!(move_reference("t-video-2.mp4", "t", "new-slug"), "new-slug-video-2.mp4");
    assert_eq!(move_reference("t/x-image-0.png", "t", "n"), "t/x-image-0.png");
    assert_eq!(move_reference("objects/t-b-image-0.png", "t", "n"), "objects/t-b-image-0.png");
}

#[test]
fn prepare_with_given_normalised_text() {
    let raw = RawExport {
        created_at: "c".to_string(),
        updated_at: "u".to_string(),
        published_at: "p".to_string(),
        attachments: vec![],
        attributes: vec![Attribute { trait_type: "xlog_slug".to_string(), value: Some("s".to_string()) }],
        content: "raw body".to_string(),
        tags: vec!["short".to_string()],
        title: "raw title".to_string(),
    };
    let p = prepare_formatted(raw, "Title".to_string(), "Body".to_string()).unwrap();
    assert_eq!(p.raw.title, "Title");
    assert_eq!(p.raw.content, "Body");
    assert_eq!(p.slug, "s");
    assert!(!p.is_article);
}
