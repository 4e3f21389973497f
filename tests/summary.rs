use suwen_markdown::importer::format_markdown;
use suwen_markdown::summary::{clear_text, standardize_text};

#[test]
fn blank_lines_go_and_lines_are_trimmed() {
    assert_eq!(clear_text("  first line \n\n \t\n second\r\nthird  "), "first line\nsecond\nthird");
    assert_eq!(clear_text(""), "");
    assert_eq!(clear_text("\n\n  \n"), "");
    assert_eq!(clear_text("\u{3000}全角空格\u{3000}\n"), "全角空格");
    assert_eq!(clear_text("one"), "one");
}

#[test]
fn markdown_formatter_spaces_mixed_scripts() {
    assert_eq!(format_markdown("中文English混排"), "中文 English 混排");
}

#[test]
fn summary_is_cleared_then_formatted() {
    assert_eq!(standardize_text("  本文介绍Rust  \n\n 作者很开心 "), "本文介绍 Rust\n作者很开心");
}
