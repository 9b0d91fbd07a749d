use writermd::chat::{
    begin_send, finish_reply, finish_retry, amend_check, compose_reply, error_reply, filter_insert_items, filter_models, history_to_api,
    insert_items, retry_ready, send_ready, split_reply, AmendCheck, UiChatMessage,
};
use writermd::document::{
    classify_shortcut, counter_display, display_name, filename_from_path, insert_snippet,
    next_counter_mode, replace_selection, History, Shortcut,
};
use writermd::render::markdown_options;
use writermd::settings::{
    delete_server, save_server, AiServer, AiSettings, ServerType, NEW_SERVER,
};

fn server(name: &str) -> AiServer {
    AiServer {
        server_type: ServerType::Openai,
        name: name.to_string(),
        api_base: "https://api.openai.com/v1".to_string(),
        api_key: String::new(),
    }
}

#[test]
fn file_names_come_from_the_path_tail() {
    assert_eq!(filename_from_path("/home/u/notes.md"), "notes.md");
    assert_eq!(filename_from_path("C:\\docs\\plan.txt"), "plan.txt");
    assert_eq!(filename_from_path("plain"), "plain");
    assert_eq!(filename_from_path("dir/"), "");
}

#[test]
fn window_title_marks_unsaved_changes() {
    assert_eq!(display_name(None, false), "Untitled-1");
    assert_eq!(display_name(Some("/x/a.md"), true), "● a.md");
}

#[test]
fn counter_shows_characters_words_and_paragraphs() {
    let text = "héllo world\n\nsecond  para\n\n\n\n  ";
    assert_eq!(counter_display(text, 0), "C 31");
    assert_eq!(counter_display("héllo wörld", 0), "C 11");
    assert_eq!(counter_display("héllo wörld", 1), "W 2");
    assert_eq!(counter_display("héllo wörld", 2), "P 1");
    assert_eq!(counter_display(text, 1), "W 4");
    assert_eq!(counter_display(text, 2), "P 2");
    assert_eq!(counter_display("", 2), "P 0");
    assert_eq!(counter_display("", 1), "W 0");
}

#[test]
fn counter_mode_cycles() {
    assert_eq!(next_counter_mode(0), 1);
    assert_eq!(next_counter_mode(1), 2);
    assert_eq!(next_counter_mode(2), 0);
}

#[test]
fn snippets_replace_the_at_sign() {
    assert_eq!(insert_snippet("ab@cd", 3, "**bold**"), Some("ab**bold**cd".to_string()));
    assert_eq!(insert_snippet("ab@cd", 0, "x"), None);
    assert_eq!(insert_snippet("ab@cd", 6, "x"), None);
}

#[test]
fn selection_is_replaced() {
    assert_eq!(replace_selection("hello world", 6, 11, "there"), "hello there");
    assert_eq!(replace_selection("ééé", 2, 4, "x"), "éxé");
}

#[test]
fn undo_and_redo_walk_the_history() {
    let mut h = History::new("a");
    assert!(h.record_change("a", "b"));
    assert!(!h.record_change("b", "b"));
    assert_eq!(h.undo("b"), Some("a".to_string()));
    assert_eq!(h.redo("a"), Some("b".to_string()));
    assert_eq!(h.redo("b"), None);
    assert_eq!(h.undo("b"), Some("a".to_string()));
    assert_eq!(h.undo("a"), Some("a".to_string()));
    assert_eq!(h.undo("a"), None);
}

#[test]
fn a_new_edit_forgets_redo() {
    let mut h = History::new("a");
    h.record("a");
    h.undo("b");
    assert_eq!(h.redo.len(), 1);
    h.record("c");
    assert!(h.redo.is_empty());
}

#[test]
fn default_settings_have_no_connection() {
    let s = AiSettings::default();
    assert!(!s.has_active_connection());
    assert!(s.active_server().is_none());
}

#[test]
fn saving_new_server_makes_it_active() {
    let mut servers = Vec::new();
    let mut active = None;
    save_server(&mut servers, &mut active, Some(NEW_SERVER), server("one"));
    assert_eq!(servers.len(), 1);
    assert_eq!(active, Some(0));
    save_server(&mut servers, &mut active, Some(NEW_SERVER), server("two"));
    assert_eq!(active, Some(0));
    save_server(&mut servers, &mut active, Some(1), server("deux"));
    assert_eq!(servers[1].name, "deux");
    save_server(&mut servers, &mut active, Some(7), server("x"));
    assert_eq!(servers.len(), 2);
    let settings = AiSettings { servers, active_index: active, last_model: None };
    assert_eq!(settings.active_server().map(|s| s.name.clone()), Some("one".to_string()));
}

#[test]
fn deleting_servers_moves_the_active_index() {
    let mut servers = vec![server("a"), server("b"), server("c")];
    let mut active = Some(2);
    let editing = delete_server(&mut servers, &mut active, Some(0), 0);
    assert_eq!(active, Some(1));
    assert_eq!(editing, None);
    let editing = delete_server(&mut servers, &mut active, Some(0), 1);
    assert_eq!(active, Some(0));
    assert_eq!(editing, Some(0));
    delete_server(&mut servers, &mut active, None, 0);
    assert_eq!(active, None);
    assert!(servers.is_empty());
}

#[test]
fn server_kinds_have_defaults() {
    assert_eq!(ServerType::Ollama.default_api_base(), "http://localhost:11434/v1");
    assert_eq!(ServerType::Openai.label(), "OpenAI");
}

#[test]
fn reply_variants_are_navigated() {
    let mut m = UiChatMessage::assistant("first".to_string());
    assert!(!m.is_user());
    m.add_variant("second".to_string());
    assert_eq!(m.active_content(), "second");
    m.show_next();
    assert_eq!(m.active_variant, 1);
    m.show_previous();
    assert_eq!(m.active_content(), "first");
    m.show_previous();
    assert_eq!(m.active_variant, 0);
    let api = m.to_api();
    assert_eq!(api.role, "assistant");
    assert_eq!(api.content, "first");
}

#[test]
fn history_is_sent_up_to_a_message() {
    let msgs = vec![
        UiChatMessage::user("q".to_string()),
        UiChatMessage::assistant("a".to_string()),
    ];
    assert_eq!(history_to_api(&msgs, 1).len(), 1);
    assert_eq!(history_to_api(&msgs, 5).len(), 2);
    assert!(UiChatMessage::user("x".to_string()).is_user());
}

#[test]
fn replies_carry_their_change_summary() {
    let text = compose_reply("Done.".to_string(), true, Some("+ line"));
    assert_eq!(text, "Done.\n\n📝 Changes:\n+ line");
    assert_eq!(split_reply(&text, false), ("Done.".to_string(), Some("+ line".to_string())));
    assert_eq!(split_reply(&text, true), (text.clone(), None));
    assert_eq!(compose_reply("Hi".to_string(), false, Some("+ x")), "Hi");
    assert_eq!(compose_reply("Hi".to_string(), true, Some("  ")), "Hi");
    assert_eq!(error_reply("timeout"), "⚠️ Error: timeout");
}

#[test]
fn requests_need_input_model_and_server() {
    let none = AiSettings::default();
    let one = AiSettings { servers: vec![server("s")], active_index: Some(0), last_model: None };
    assert!(send_ready("hi", false, "gpt", &one));
    assert!(!send_ready("  ", false, "gpt", &one));
    assert!(!send_ready("hi", true, "gpt", &one));
    assert!(!send_ready("hi", false, "", &one));
    assert!(!send_ready("hi", false, "gpt", &none));
    assert!(retry_ready(false, "gpt", &one));
    assert!(!retry_ready(true, "gpt", &one));
}

#[test]
fn amendments_are_checked() {
    let none = AiSettings::default();
    let one = AiSettings { servers: vec![server("s")], active_index: Some(0), last_model: None };
    assert!(matches!(amend_check(" ", "m", &one), AmendCheck::Ignore));
    match amend_check("fix", "", &one) {
        AmendCheck::Error(e) => assert_eq!(e, "Select a model in the LLM Panel first."),
        _ => panic!("expected an error"),
    }
    match amend_check("fix", "m", &none) {
        AmendCheck::Error(e) => assert_eq!(e, "No active server configured."),
        _ => panic!("expected an error"),
    }
    assert!(matches!(amend_check("fix", "m", &one), AmendCheck::Ready));
}

#[test]
fn models_are_filtered_ignoring_case() {
    let models = vec!["GPT-4o".to_string(), "llama3".to_string(), "Gpt-mini".to_string()];
    assert_eq!(filter_models(&models, "gpt"), vec!["GPT-4o".to_string(), "Gpt-mini".to_string()]);
    assert_eq!(filter_models(&models, ""), models);
    assert!(filter_models(&models, "zzz").is_empty());
}

#[test]
fn insert_menu_filters_by_label() {
    let items = insert_items();
    assert_eq!(items.len(), 15);
    let found = filter_insert_items(&items, "HEAD");
    let labels: Vec<&str> = found.iter().map(|i| i.label).collect();
    assert_eq!(labels, vec!["Heading 1", "Heading 2", "Heading 3"]);
    assert_eq!(found[1].snippet, "## ");
    assert_eq!(filter_insert_items(&items, "").len(), 15);
}

#[test]
fn six_markdown_extensions_are_enabled() {
    assert_eq!(markdown_options().len(), 6);
}

#[test]
fn window_shortcuts_are_classified() {
    assert_eq!(classify_shortcut("z", true, false, false), Shortcut::Undo);
    assert_eq!(classify_shortcut("z", false, true, false), Shortcut::Undo);
    assert_eq!(classify_shortcut("Z", true, false, false), Shortcut::Plain);
    assert_eq!(classify_shortcut("x", true, false, false), Shortcut::Redo);
    assert_eq!(classify_shortcut("X", false, true, false), Shortcut::Redo);
    assert_eq!(classify_shortcut("s", true, false, false), Shortcut::Save);
    assert_eq!(classify_shortcut("S", true, false, false), Shortcut::Save);
    assert_eq!(classify_shortcut("s", false, false, false), Shortcut::Plain);
    assert_eq!(classify_shortcut("Escape", false, false, true), Shortcut::CloseInsertMenu);
    assert_eq!(classify_shortcut("Escape", false, false, false), Shortcut::Plain);
    assert_eq!(classify_shortcut("z", true, false, true), Shortcut::Undo);
}

#[test]
fn sending_and_replying_grow_the_conversation() {
    let mut log: Vec<UiChatMessage> = Vec::new();
    let sent = begin_send(&mut log, "hi".to_string());
    assert_eq!(sent.len(), 1);
    assert_eq!(sent[0].role, "user");
    assert_eq!(sent[0].content, "hi");
    finish_reply(&mut log, "hello".to_string());
    let sent = begin_send(&mut log, "again".to_string());
    assert_eq!(sent.len(), 3);
    assert_eq!(sent[1].role, "assistant");
    assert_eq!(sent[1].content, "hello");
    assert_eq!(sent[2].content, "again");
    finish_reply(&mut log, "second".to_string());
    finish_retry(&mut log, 1, "hello two".to_string());
    assert_eq!(log[1].variants, vec!["hello".to_string(), "hello two".to_string()]);
    assert_eq!(log[1].active_variant, 1);
    assert_eq!(log[1].active_content(), "hello two");
    assert_eq!(log[3].variants, vec!["second".to_string()]);
    finish_retry(&mut log, 9, "none".to_string());
    assert_eq!(log.len(), 4);
}
