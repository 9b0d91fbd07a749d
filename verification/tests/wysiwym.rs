use writermd::blocks::TextBlock;
use writermd::cursor::{preserve_hidden_prefix, utf16_len, visible_cursor_to_raw_cursor};
use writermd::lines::{analyze_line, line_render_info, LineKind};
use writermd::render::render_inline_html;

fn block(id: usize, text: &str) -> TextBlock {
    TextBlock {
        id,
        text: text.to_string(),
    }
}

#[test]
fn classifies_heading_rows() {
    let info = analyze_line("## Heading", false);
    assert_eq!(info.kind, LineKind::Heading(2));
    assert_eq!(info.presentation.prefix_len, 3);
    assert_eq!(info.presentation.visible_text, "Heading");
    assert!(info.hidden_prefix);
    assert!(!info.raw_only);
}

#[test]
fn classifies_bullet_rows() {
    let info = analyze_line("- item", false);
    assert_eq!(info.kind, LineKind::BulletItem);
    assert_eq!(info.presentation.visible_text, "item");
    assert_eq!(info.presentation.marker_text.as_deref(), Some("•"));
    assert!(info.hidden_prefix);
}

#[test]
fn classifies_ordered_rows() {
    let info = analyze_line("12. item", false);
    assert_eq!(info.kind, LineKind::OrderedItem);
    assert_eq!(info.presentation.visible_text, "item");
    assert_eq!(info.presentation.marker_text.as_deref(), Some("12."));
    assert!(info.hidden_prefix);
}

#[test]
fn classifies_task_rows() {
    let info = analyze_line("- [x] done", false);
    assert_eq!(info.kind, LineKind::TaskItem { checked: true });
    assert_eq!(info.presentation.visible_text, "done");
    assert_eq!(info.presentation.marker_text.as_deref(), Some("☑"));
    assert!(info.hidden_prefix);
}

#[test]
fn classifies_quote_rows() {
    let info = analyze_line("> quoted", false);
    assert_eq!(info.kind, LineKind::QuoteLine);
    assert_eq!(info.presentation.visible_text, "quoted");
    assert!(info.hidden_prefix);
    assert!(!info.raw_only);
}

#[test]
fn classifies_horizontal_rules() {
    let info = analyze_line("---", false);
    assert_eq!(info.kind, LineKind::Hr);
    assert!(info.hidden_prefix);
    assert!(info.auto_raw_on_focus);
    assert_eq!(info.presentation.visible_text, "");
}

#[test]
fn classifies_fence_rows_and_bodies() {
    let open = analyze_line("```rust", false);
    assert_eq!(open.kind, LineKind::FenceLine);
    assert!(open.raw_only);

    let body = analyze_line("let x = 1;", true);
    assert_eq!(body.kind, LineKind::CodeFenceBody);
    assert!(body.raw_only);

    let close = analyze_line("```", true);
    assert_eq!(close.kind, LineKind::FenceLine);
    assert!(close.raw_only);
}

#[test]
fn classifies_blank_rows() {
    let info = analyze_line("", false);
    assert_eq!(info.kind, LineKind::Blank);
    assert_eq!(info.presentation.visible_text, "");
    assert!(!info.raw_only);
}

#[test]
fn falls_back_to_raw_for_table_rows() {
    let info = analyze_line("| a | b |", false);
    assert_eq!(info.kind, LineKind::RawOnly);
    assert!(info.raw_only);
}

#[test]
fn falls_back_to_raw_for_html_blocks() {
    let info = analyze_line("<section>", false);
    assert_eq!(info.kind, LineKind::RawOnly);
    assert!(info.raw_only);
}

#[test]
fn code_fence_state_tracks_across_blocks() {
    let blocks = vec![block(0, "```"), block(1, "let x = 1;"), block(2, "```")];
    assert_eq!(line_render_info(&blocks, 1).kind, LineKind::CodeFenceBody);
    assert_eq!(line_render_info(&blocks, 2).kind, LineKind::FenceLine);
}

#[test]
fn hidden_prefix_cursor_mapping_uses_prefix_length() {
    let info = analyze_line("### Heading", false);
    assert_eq!(
        visible_cursor_to_raw_cursor(info.presentation.prefix_len, "### Heading", 0),
        utf16_len("### ")
    );
    assert_eq!(
        visible_cursor_to_raw_cursor(info.presentation.prefix_len, "### Heading", 4),
        utf16_len("### Head")
    );
}

#[test]
fn preserve_hidden_prefix_keeps_markdown_controls() {
    let info = analyze_line("- item", false);
    assert_eq!(
        preserve_hidden_prefix(info.presentation.prefix_len, "- item", "updated"),
        "- updated"
    );
}

#[test]
fn inline_renderer_drops_block_wrappers() {
    let html = render_inline_html("Hello **bold** [link](https://example.com)");
    assert!(html.contains("<strong>bold</strong>"));
    assert!(html.contains("<a href=\"https://example.com\">link</a>"));
    assert!(!html.contains("<p>"));
    assert!(!html.contains("<ul>"));
    assert!(!html.contains("<blockquote>"));
}
