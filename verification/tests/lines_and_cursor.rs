use writermd::blocks::{parse_blocks, TextBlock};
use writermd::cursor::{
    locate_offset, preserve_hidden_prefix, utf16_len, utf16_offset_to_byte_index,
    visible_cursor_to_raw_cursor,
};
use writermd::lines::{analyze_line, line_render_info, LineKind};
use writermd::render::{finish_inline_html, html_escape, render_inline_html, render_line_html};

#[test]
fn heading_row_classes_and_prefix() {
    let info = analyze_line("## Heading", false);
    assert_eq!(
        info.presentation.row_classes,
        "editor-line-shell is-heading is-heading-2 has-hidden-prefix"
    );
    assert_eq!(info.presentation.marker_text, None);
}

#[test]
fn bullet_row_classes_have_marker() {
    let info = analyze_line("  * item", false);
    assert_eq!(info.kind, LineKind::BulletItem);
    assert_eq!(info.presentation.prefix_len, 4);
    assert_eq!(
        info.presentation.row_classes,
        "editor-line-shell is-list is-bullet has-hidden-prefix has-marker"
    );
}

#[test]
fn seven_hashes_are_a_paragraph() {
    let info = analyze_line("####### deep", false);
    assert_eq!(info.kind, LineKind::Paragraph);
    assert_eq!(info.presentation.prefix_len, 0);
    assert_eq!(info.presentation.visible_text, "####### deep");
    assert!(!info.hidden_prefix);
    assert_eq!(info.presentation.row_classes, "editor-line-shell is-paragraph");
}

#[test]
fn hash_without_space_is_a_paragraph() {
    assert_eq!(analyze_line("#tag", false).kind, LineKind::Paragraph);
}

#[test]
fn unchecked_task_uses_empty_box() {
    let info = analyze_line("+ [ ] todo", false);
    assert_eq!(info.kind, LineKind::TaskItem { checked: false });
    assert_eq!(info.presentation.marker_text.as_deref(), Some("☐"));
    assert_eq!(info.presentation.prefix_len, 6);
}

#[test]
fn ordered_item_with_parenthesis() {
    let info = analyze_line("3) third", false);
    assert_eq!(info.kind, LineKind::OrderedItem);
    assert_eq!(info.presentation.marker_text.as_deref(), Some("3)"));
    assert_eq!(info.presentation.visible_text, "third");
}

#[test]
fn spaced_rules_and_short_runs() {
    assert_eq!(analyze_line("- - -", false).kind, LineKind::Hr);
    assert_eq!(analyze_line("***", false).kind, LineKind::Hr);
    assert_eq!(analyze_line("___", false).kind, LineKind::Hr);
    assert_eq!(analyze_line("__", false).kind, LineKind::Paragraph);
    assert_eq!(analyze_line("-*-", false).kind, LineKind::Paragraph);
}

#[test]
fn rule_hides_the_whole_line_in_bytes() {
    let info = analyze_line(" --- ", false);
    assert_eq!(info.kind, LineKind::Hr);
    assert_eq!(info.presentation.prefix_len, 5);
    assert_eq!(info.presentation.visible_text, "");
    assert_eq!(
        info.presentation.row_classes,
        "editor-line-shell is-hr has-hidden-prefix"
    );
}

#[test]
fn reference_definition_and_tilde_fence() {
    assert_eq!(analyze_line("[ref]: https://x.org", false).kind, LineKind::RawOnly);
    assert_eq!(analyze_line("  ~~~", false).kind, LineKind::FenceLine);
    assert_eq!(analyze_line("plain text", true).kind, LineKind::CodeFenceBody);
}

#[test]
fn whitespace_only_line_is_blank() {
    let info = analyze_line(" \t ", false);
    assert_eq!(info.kind, LineKind::Blank);
    assert_eq!(info.presentation.visible_text, " \t ");
}

#[test]
fn unknown_block_renders_as_blank() {
    let blocks = vec![TextBlock { id: 4, text: "# a".to_string() }];
    assert_eq!(line_render_info(&blocks, 9).kind, LineKind::Blank);
    assert_eq!(line_render_info(&blocks, 4).kind, LineKind::Heading(1));
}

#[test]
fn fence_state_closes_after_second_fence() {
    let blocks = parse_blocks("```\ncode\n```\n# after");
    assert_eq!(line_render_info(&blocks, 1).kind, LineKind::CodeFenceBody);
    assert_eq!(line_render_info(&blocks, 3).kind, LineKind::Heading(1));
}

#[test]
fn utf16_lengths_count_surrogate_pairs() {
    assert_eq!(utf16_len("a😀"), 3);
    assert_eq!(utf16_len("é"), 1);
    assert_eq!(utf16_len(""), 0);
}

#[test]
fn utf16_offsets_map_to_byte_indices() {
    let text = "a😀b";
    assert_eq!(utf16_offset_to_byte_index(text, 0), 0);
    assert_eq!(utf16_offset_to_byte_index(text, 1), 1);
    assert_eq!(utf16_offset_to_byte_index(text, 2), 5);
    assert_eq!(utf16_offset_to_byte_index(text, 3), 5);
    assert_eq!(utf16_offset_to_byte_index(text, 4), 6);
    assert_eq!(utf16_offset_to_byte_index(text, 99), 6);
}

#[test]
fn raw_cursor_clamps_prefix_to_text() {
    assert_eq!(visible_cursor_to_raw_cursor(10, "ab", 1), 3);
    assert_eq!(visible_cursor_to_raw_cursor(2, "é!", 0), 1);
}

#[test]
fn no_prefix_keeps_visible_text_only() {
    assert_eq!(preserve_hidden_prefix(0, "# old", "new"), "new");
    assert_eq!(preserve_hidden_prefix(9, "> q", "x"), "> qx");
}

#[test]
fn text_positions_are_located_in_pieces() {
    assert_eq!(locate_offset(&[3, 0, 5], 4), Some((2, 1)));
    assert_eq!(locate_offset(&[3, 0, 5], 3), Some((0, 3)));
    assert_eq!(locate_offset(&[3, 0, 5], 9), None);
    assert_eq!(locate_offset(&[], 0), None);
}

#[test]
fn escaping_replaces_markup_characters() {
    assert_eq!(html_escape("a<b>&c"), "a&lt;b&gt;&amp;c");
    assert_eq!(html_escape("plain"), "plain");
}

#[test]
fn empty_and_blank_lines_render_as_breaks() {
    assert_eq!(render_inline_html(""), "<br/>");
    assert_eq!(render_inline_html("   "), "<br/>");
}

#[test]
fn block_markdown_falls_back_to_escaped_source() {
    assert_eq!(render_inline_html("- item"), "- item");
    assert_eq!(render_inline_html("<div>x</div>"), "&lt;div&gt;x&lt;/div&gt;");
    assert_eq!(render_inline_html("> quoted"), "&gt; quoted");
}

#[test]
fn inline_markup_keeps_formatting() {
    assert_eq!(render_inline_html("*it*"), "<em>it</em>");
    assert_eq!(render_inline_html("a `b`"), "a <code>b</code>");
}

#[test]
fn finishing_strips_one_paragraph() {
    assert_eq!(finish_inline_html("x", "<p>hi</p>\n"), "hi");
    assert_eq!(finish_inline_html("x", "<ul>\n<li>a</li>\n</ul>\n"), "x");
    assert_eq!(finish_inline_html("a<b", "<P>q</P>"), "a&lt;b");
    assert_eq!(finish_inline_html("x", "\n\n"), "<br/>");
}

#[test]
fn line_html_by_kind() {
    assert_eq!(render_line_html(&analyze_line("---", false)), "<span class=\"editor-inline-rule\"></span>");
    assert_eq!(render_line_html(&analyze_line("", false)), "<br/>");
    assert_eq!(render_line_html(&analyze_line("<b>", false)), "&lt;b&gt;");
    assert_eq!(render_line_html(&analyze_line("## **x**", false)), "<strong>x</strong>");
}
