use writermd::blocks::EditorState;
use writermd::editing::{classify_key, strip_zero_width, EditorKey, FocusTarget, LineContent};

fn texts(st: &EditorState) -> Vec<String> {
    st.blocks.iter().map(|b| b.text.clone()).collect()
}

fn ids(st: &EditorState) -> Vec<usize> {
    st.blocks.iter().map(|b| b.id).collect()
}

#[test]
fn loading_and_writing_back_round_trips() {
    let content = "# Title\n\n- a\n- b\n";
    let st = EditorState::new(content);
    assert_eq!(st.to_string(), content);
    assert_eq!(ids(&st), vec![0, 1, 2, 3, 4]);
    assert_eq!(st.next_id, 5);
}

#[test]
fn loading_cleans_carriage_returns_and_zero_width_spaces() {
    let st = EditorState::new("a\r\nb\u{200b}c\r\r");
    assert_eq!(texts(&st), vec!["a".to_string(), "bc".to_string()]);
    assert_eq!(st.to_string(), "a\nbc");
}

#[test]
fn empty_document_has_one_empty_line() {
    let st = EditorState::new("");
    assert_eq!(texts(&st), vec![String::new()]);
    assert!(st.shows_placeholder(0));
}

#[test]
fn sync_forgets_raw_state() {
    let mut st = EditorState::new("# a");
    st.handle_key(0, EditorKey::ToggleRaw, None);
    assert!(st.raw_lines.contains(&0));
    st.sync_from_content("x\ny");
    assert!(st.raw_lines.is_empty());
    assert_eq!(st.active_raw_line, None);
    assert_eq!(st.next_id, 2);
}

#[test]
fn enter_splits_at_the_visible_cursor() {
    let mut st = EditorState::new("# Title");
    let out = st.handle_key(0, EditorKey::Enter, Some(2));
    assert!(out.prevent_default);
    assert!(out.changed);
    assert_eq!(out.focus, Some(FocusTarget { block_id: 1, offset: 0 }));
    assert_eq!(texts(&st), vec!["# Ti".to_string(), "tle".to_string()]);
    assert_eq!(st.to_string(), "# Ti\ntle");
    assert_eq!(st.next_id, 2);
}

#[test]
fn enter_without_cursor_splits_at_the_end() {
    let mut st = EditorState::new("abc\nz");
    st.handle_key(0, EditorKey::Enter, None);
    assert_eq!(texts(&st), vec!["abc".to_string(), String::new(), "z".to_string()]);
    assert_eq!(ids(&st), vec![0, 2, 1]);
}

#[test]
fn backspace_merges_what_enter_split() {
    let mut st = EditorState::new("# Title");
    st.handle_key(0, EditorKey::Enter, Some(2));
    let out = st.handle_key(1, EditorKey::Backspace, Some(0));
    assert!(out.changed);
    assert_eq!(out.focus, Some(FocusTarget { block_id: 0, offset: 4 }));
    assert_eq!(st.to_string(), "# Title");
    assert_eq!(ids(&st), vec![0]);
}

#[test]
fn backspace_at_start_of_heading_reveals_its_prefix() {
    let mut st = EditorState::new("x\n## Head");
    let out = st.handle_key(1, EditorKey::Backspace, Some(0));
    assert!(out.prevent_default);
    assert!(!out.changed);
    assert_eq!(out.focus, Some(FocusTarget { block_id: 1, offset: 3 }));
    assert_eq!(st.active_raw_line, Some(1));
    assert_eq!(st.to_string(), "x\n## Head");
}

#[test]
fn backspace_inside_text_is_left_to_the_browser() {
    let mut st = EditorState::new("a\nbc");
    let out = st.handle_key(1, EditorKey::Backspace, Some(1));
    assert!(!out.prevent_default);
    assert_eq!(out.focus, None);
    assert_eq!(st.to_string(), "a\nbc");
}

#[test]
fn toggle_raw_pins_and_unpins() {
    let mut st = EditorState::new("# a");
    let out = st.handle_key(0, EditorKey::ToggleRaw, None);
    assert!(out.prevent_default);
    assert!(st.raw_lines.contains(&0));
    assert_eq!(st.active_raw_line, Some(0));
    assert!(st.is_raw(0));
    st.handle_key(0, EditorKey::ToggleRaw, None);
    assert!(!st.raw_lines.contains(&0));
}

#[test]
fn toggle_raw_is_ignored_on_raw_only_lines() {
    let mut st = EditorState::new("```");
    let out = st.handle_key(0, EditorKey::ToggleRaw, None);
    assert!(!out.prevent_default);
    assert!(st.raw_lines.is_empty());
}

#[test]
fn arrows_move_between_lines() {
    let mut st = EditorState::new("héllo\n# x");
    let up = st.handle_key(1, EditorKey::ArrowUp, Some(0));
    assert_eq!(up.focus, Some(FocusTarget { block_id: 0, offset: 5 }));
    let down = st.handle_key(0, EditorKey::ArrowDown, Some(5));
    assert_eq!(down.focus, Some(FocusTarget { block_id: 1, offset: 0 }));
    let stay = st.handle_key(0, EditorKey::ArrowDown, Some(2));
    assert_eq!(stay.focus, None);
    let top = st.handle_key(0, EditorKey::ArrowUp, Some(0));
    assert_eq!(top.focus, None);
}

#[test]
fn arrow_left_at_visible_start_shows_prefix() {
    let mut st = EditorState::new("> quote");
    let out = st.handle_key(0, EditorKey::ArrowLeft, Some(0));
    assert_eq!(out.focus, Some(FocusTarget { block_id: 0, offset: 2 }));
    assert_eq!(st.active_raw_line, Some(0));
}

#[test]
fn typing_keeps_the_hidden_prefix() {
    let mut st = EditorState::new("# Old");
    let at = st.apply_input(0, "New", Some(3));
    assert_eq!(at, None);
    assert_eq!(st.to_string(), "# New");
}

#[test]
fn typing_in_raw_view_stores_the_text_as_is() {
    let mut st = EditorState::new("# Old");
    st.focus_line(0);
    st.handle_key(0, EditorKey::ToggleRaw, None);
    st.apply_input(0, "## Re\u{200b}written", None);
    assert_eq!(st.to_string(), "## Rewritten");
}

#[test]
fn typing_at_sign_reports_document_offset() {
    let mut st = EditorState::new("ab\ncd");
    let at = st.apply_input(1, "c@d", Some(2));
    assert_eq!(at, Some(5));
    assert_eq!(st.to_string(), "ab\nc@d");
    let none = st.apply_input(1, "c@d", Some(1));
    assert_eq!(none, None);
}

#[test]
fn typing_at_sign_after_hidden_prefix_counts_raw_bytes() {
    let mut st = EditorState::new("# é");
    let at = st.apply_input(0, "é@", Some(2));
    assert_eq!(at, Some(5));
}

#[test]
fn focus_shows_plain_lines_raw_only() {
    let mut st = EditorState::new("plain\n# Head");
    st.focus_line(0);
    assert_eq!(st.active_raw_line, Some(0));
    st.blur_line(0);
    assert_eq!(st.active_raw_line, None);
    st.focus_line(1);
    assert_eq!(st.active_raw_line, None);
    st.blur_line(1);
    assert_eq!(st.active_raw_line, None);
}

#[test]
fn content_and_markers_follow_raw_state() {
    let mut st = EditorState::new("- item\n---");
    match st.line_content(0) {
        LineContent::Html(h) => assert_eq!(h, "item"),
        LineContent::Text(_) => panic!("bullet line should render"),
    }
    assert_eq!(st.marker(0), "•");
    assert_eq!(st.cursor_limit(0), 4);
    assert!(st.is_empty_line(1) == false);
    st.handle_key(0, EditorKey::ToggleRaw, None);
    match st.line_content(0) {
        LineContent::Text(t) => assert_eq!(t, "- item"),
        LineContent::Html(_) => panic!("raw line should show text"),
    }
    assert_eq!(st.marker(0), "");
    assert_eq!(st.cursor_limit(0), 6);
    assert_eq!(st.row_classes(1), "editor-line-shell is-hr has-hidden-prefix");
}

#[test]
fn follow_content_reloads_only_on_change() {
    let mut st = EditorState::new("a");
    st.handle_key(0, EditorKey::ToggleRaw, None);
    assert!(!st.follow_content("a"));
    assert!(st.raw_lines.contains(&0));
    assert!(st.follow_content("b\nc"));
    assert_eq!(st.to_string(), "b\nc");
    assert!(st.raw_lines.is_empty());
}

#[test]
fn keys_are_classified_with_modifiers() {
    assert_eq!(classify_key("r", true, false, false), EditorKey::ToggleRaw);
    assert_eq!(classify_key("R", false, true, false), EditorKey::ToggleRaw);
    assert_eq!(classify_key("r", false, false, false), EditorKey::Other);
    assert_eq!(classify_key("Enter", false, false, false), EditorKey::Enter);
    assert_eq!(classify_key("Enter", false, false, true), EditorKey::Other);
    assert_eq!(classify_key("Backspace", true, false, false), EditorKey::Backspace);
    assert_eq!(classify_key("Home", false, false, false), EditorKey::Home);
    assert_eq!(classify_key("ArrowDown", false, false, false), EditorKey::ArrowDown);
}

#[test]
fn zero_width_spaces_are_stripped() {
    assert_eq!(strip_zero_width("a\u{200b}b\u{200b}"), "ab");
}

#[test]
fn edit_sequences_keep_ids_distinct_and_fresh() {
    let mut st = EditorState::new("one\ntwo");
    st.handle_key(0, EditorKey::Enter, Some(1));
    st.handle_key(2, EditorKey::Enter, None);
    st.apply_input(1, "new", Some(3));
    st.handle_key(1, EditorKey::Backspace, Some(0));
    st.focus_line(3);
    st.handle_key(3, EditorKey::ToggleRaw, None);
    st.blur_line(3);
    st.handle_key(0, EditorKey::Enter, Some(0));
    let mut seen = ids(&st);
    assert!(!seen.is_empty());
    assert!(seen.iter().all(|&id| id < st.next_id));
    seen.sort();
    seen.dedup();
    assert_eq!(seen.len(), st.blocks.len());
    assert_eq!(st.next_id, 5);
}
