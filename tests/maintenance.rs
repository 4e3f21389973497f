use suwen_markdown::manager::{is_convertible_image, join_path, webp_path, ManagerError, MarkdownManager, RenameStep};
use suwen_markdown::site::{Config, IdentityInfo, Lang};

#[test]
fn manager_defaults_its_image_directory() {
    let m = MarkdownManager::new("out".to_string(), None);
    assert_eq!(m.image_output, "out/images");
    let m = MarkdownManager::new("out/".to_string(), Some("assets".to_string()));
    assert_eq!(m.image_output, "assets");
    assert_eq!(m.document_path("a"), "out/a.md");
    assert_eq!(join_path("", "x"), "x");
}

#[test]
fn rename_cannot_be_repeated() {
    let m = MarkdownManager::new("out".to_string(), None);
    assert_eq!(m.plan_rename("a", "b", true, false), Ok(RenameStep::Proceed));
    assert_eq!(m.plan_rename("a", "b", false, true), Err(ManagerError::NotFound));
    assert_eq!(m.plan_rename("a", "b", true, true), Err(ManagerError::Conflict));
    assert_eq!(m.plan_rename("a", "a", false, false), Ok(RenameStep::Nothing));
}

#[test]
fn manager_reads_slugs_from_asset_names() {
    assert_eq!(MarkdownManager::extract_image_slug("x/y/p-q-image-0.png"), Some("p-q".to_string()));
    assert_eq!(MarkdownManager::extract_image_slug_from_file_name("p-image-0.png"), Some("p".to_string()));
}

#[test]
fn raster_images_are_recognised_by_extension() {
    assert!(is_convertible_image("imgs/a-image-0.JPG"));
    assert!(is_convertible_image("imgs/a-image-0.webp"));
    assert!(is_convertible_image("a.Jpeg"));
    assert!(!is_convertible_image("imgs/a-video-0.mp4"));
    assert!(!is_convertible_image("imgs/.png"));
    assert!(!is_convertible_image("png"));
}

#[test]
fn webp_path_replaces_the_extension() {
    assert_eq!(webp_path("i/a-image-0.png"), "i/a-image-0.webp");
    assert_eq!(webp_path("i/a-image-0.webp"), "i/a-image-0.webp");
    assert_eq!(webp_path("i.d/noext"), "i.d/noext.webp");
}

#[test]
fn quality_defaults_and_bounds() {
    assert_eq!(MarkdownManager::check_quality(None), Ok(80));
    assert_eq!(MarkdownManager::check_quality(Some(0)), Ok(0));
    assert_eq!(MarkdownManager::check_quality(Some(100)), Ok(100));
    assert_eq!(MarkdownManager::check_quality(Some(101)), Err(ManagerError::InvalidQuality));
}

#[test]
fn conversion_plan_renames_and_deletes_superseded_sources() {
    let m = MarkdownManager::new("/out".to_string(), None);
    let pairs = vec![
        ("/out/images/a-image-0.png".to_string(), "/out/images/a-image-0.webp".to_string()),
        ("/out/images/b-image-1.webp".to_string(), "/out/images/b-image-1.webp".to_string()),
        ("/out/images/a-attachment-0.gif".to_string(), "/out/images/a-attachment-0.webp".to_string()),
    ];
    let plan = m.plan_conversion(&pairs).unwrap();
    assert_eq!(
        plan.renames,
        vec![
            ("a".to_string(), "images/a-image-0.png".to_string(), "images/a-image-0.webp".to_string()),
            ("a".to_string(), "images/a-attachment-0.gif".to_string(), "images/a-attachment-0.webp".to_string()),
        ]
    );
    assert_eq!(
        plan.deletions,
        vec!["/out/images/a-image-0.png".to_string(), "/out/images/a-attachment-0.gif".to_string()]
    );
    assert_eq!(
        MarkdownManager::renames_for_slug(&plan.renames, "a"),
        vec![
            ("images/a-image-0.png".to_string(), "images/a-image-0.webp".to_string()),
            ("images/a-attachment-0.gif".to_string(), "images/a-attachment-0.webp".to_string()),
        ]
    );
    assert!(MarkdownManager::renames_for_slug(&plan.renames, "b").is_empty());
}

#[test]
fn second_recompression_changes_nothing() {
    let m = MarkdownManager::new("/out".to_string(), None);
    let paths = ["/out/images/a-image-0.webp", "/out/images/b-image-3.webp"];
    let pairs: Vec<(String, String)> = paths.iter().map(|p| (p.to_string(), webp_path(p))).collect();
    let plan = m.plan_conversion(&pairs).unwrap();
    assert!(plan.renames.is_empty());
    assert!(plan.deletions.is_empty());
}

#[test]
fn conversion_plan_errors() {
    let m = MarkdownManager::new("/out".to_string(), None);
    let no_slug = vec![("/out/images/plain.png".to_string(), "/out/images/plain.webp".to_string())];
    assert_eq!(m.plan_conversion(&no_slug).err(), Some(ManagerError::AssetWithoutSlug));
    let outside = vec![("rel/a-image-0.png".to_string(), "rel/a-image-0.webp".to_string())];
    assert_eq!(m.plan_conversion(&outside).err(), Some(ManagerError::OutsideOutput));
}

#[test]
fn language_tags() {
    assert_eq!(Lang::try_from("ja-JP"), Ok(Lang::JaJP));
    assert_eq!(Lang::KoKR.to_string(), "ko-KR");
    assert_eq!(Lang::ZhCN.to_string(), "zh-CN");
    assert_eq!(Lang::try_from("fr-FR"), Err("Unsupported language code".to_string()));
}

#[test]
fn default_config_has_a_fresh_secret() {
    let c = Config::default();
    assert_eq!(c.jwt_secret.chars().count(), 32);
    assert!(c.jwt_secret.chars().all(|ch| ch.is_ascii_alphanumeric()));
    assert!(c.openai_api_key.is_empty());
}

#[test]
fn identities_shown_to_visitors() {
    let a = IdentityInfo::anonymous(3, "0123456789abcdef0123456789abcdef");
    assert_eq!(a.display_name, "匿名用户-abcdef");
    assert!(a.is_anonymous && !a.is_admin && a.avatar_url.is_none());
    let n = IdentityInfo::nobody(0);
    assert_eq!(n.display_name, "匿名用户");
    let m = IdentityInfo::member(1, "https://a/p.png".to_string(), "amtoaer".to_string(), true);
    assert!(!m.is_anonymous && m.is_admin);
}

#[test]
fn slugs_to_rewrite_are_listed_once_in_first_order() {
    let renames = vec![
        ("b".to_string(), "x".to_string(), "y".to_string()),
        ("a".to_string(), "x".to_string(), "y".to_string()),
        ("b".to_string(), "z".to_string(), "w".to_string()),
    ];
    assert_eq!(MarkdownManager::distinct_slugs(&renames), vec!["b".to_string(), "a".to_string()]);
    assert!(MarkdownManager::distinct_slugs(&vec![]).is_empty());
}
