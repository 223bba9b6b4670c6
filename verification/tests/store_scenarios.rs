use mycli::store::{App, EditContext, InputMode, MessageFrom};

fn fresh_app() -> App {
    App::new(Vec::new())
}

#[test]
fn new_app_has_one_fresh_session() {
    let app = fresh_app();
    assert_eq!(app.sessions.len(), 1);
    assert_eq!(app.active_idx, 0);
    assert_eq!(app.sessions[0].title, "Session 1");
    assert_eq!(app.sessions[0].branches.len(), 1);
    assert_eq!(app.sessions[0].branches[0].name, "main");
    assert!(app.sessions[0].branches[0].messages.is_empty());
    assert!(app.streaming_assistant.is_none());
    assert_eq!(app.input_mode, InputMode::Normal);
}

#[test]
fn edit_forks_new_branch_and_keeps_main() {
    // Main branch holds [user:"hi", assistant:"hello"]; editing message 0
    // to "hi there" forks "branch-1" = [user:"hi there"], main keeps its
    // two messages, and the new branch becomes active.
    let mut app = fresh_app();
    app.append_message(0, 0, MessageFrom::User, "hi".to_string());
    app.append_message(0, 0, MessageFrom::Assistant, "hello".to_string());
    let ctx = EditContext { session_idx: 0, branch_idx: 0, message_idx: 0 };
    let new_idx = app.fork_from_edit(ctx, "hi there".to_string());
    assert_eq!(new_idx, 1);
    let session = &app.sessions[0];
    assert_eq!(session.branches.len(), 2);
    assert_eq!(session.branches[0].messages.len(), 2);
    assert_eq!(session.branches[0].messages[0].content, "hi");
    assert_eq!(session.branches[0].messages[1].content, "hello");
    assert_eq!(session.branches[1].name, "branch-1");
    assert_eq!(session.branches[1].messages.len(), 1);
    assert_eq!(session.branches[1].messages[0].content, "hi there");
    assert_eq!(session.branches[1].messages[0].from, MessageFrom::User);
    assert_eq!(session.active_branch, 1);
}

#[test]
fn fork_preserves_prefix_and_truncates() {
    let mut app = fresh_app();
    app.append_message(0, 0, MessageFrom::User, "one".to_string());
    app.append_message(0, 0, MessageFrom::Assistant, "two".to_string());
    app.append_message(0, 0, MessageFrom::User, "three".to_string());
    app.append_message(0, 0, MessageFrom::Assistant, "four".to_string());
    let ctx = EditContext { session_idx: 0, branch_idx: 0, message_idx: 2 };
    app.fork_from_edit(ctx, "three-edited".to_string());
    let forked = &app.sessions[0].branches[1];
    assert_eq!(forked.messages.len(), 3);
    assert_eq!(forked.messages[0].content, "one");
    assert_eq!(forked.messages[1].content, "two");
    assert_eq!(forked.messages[2].content, "three-edited");
    // The source branch is untouched.
    assert_eq!(app.sessions[0].branches[0].messages.len(), 4);
    assert_eq!(app.sessions[0].branches[0].messages[2].content, "three");
}

#[test]
fn chunks_assemble_in_order() {
    // Chunks "He" then "llo" delivered under one cursor give "Hello".
    let mut app = fresh_app();
    app.append_message(0, 0, MessageFrom::User, "say hello".to_string());
    app.start_streaming_assistant(0, 0);
    app.append_assistant_chunk(0, 0, "He".to_string());
    app.append_assistant_chunk(0, 0, "llo".to_string());
    app.finish_streaming(0, 0);
    let msgs = &app.sessions[0].branches[0].messages;
    assert_eq!(msgs.len(), 2);
    assert_eq!(msgs[1].content, "Hello");
    assert!(app.streaming_assistant.is_none());
}

#[test]
fn stale_chunk_changes_nothing() {
    let mut app = fresh_app();
    app.start_streaming_assistant(0, 0);
    app.append_assistant_chunk(0, 1, "stale".to_string());
    app.append_assistant_chunk(1, 0, "stale".to_string());
    assert_eq!(app.sessions[0].branches[0].messages[0].content, "");
    app.finish_streaming(0, 1);
    assert!(app.streaming_assistant.is_some());
    app.finish_streaming(0, 0);
    assert!(app.streaming_assistant.is_none());
    app.append_assistant_chunk(0, 0, "late".to_string());
    assert_eq!(app.sessions[0].branches[0].messages[0].content, "");
}

#[test]
fn switching_branch_drops_cursor_and_spares_other_branch() {
    // The cursor belongs to (S0,B0); the user switches to B1 before the
    // stream finishes; later chunks tagged (S0,B0) are dropped and B1 is
    // unaffected.
    let mut app = fresh_app();
    app.append_message(0, 0, MessageFrom::User, "root".to_string());
    let ctx = EditContext { session_idx: 0, branch_idx: 0, message_idx: 0 };
    app.fork_from_edit(ctx, "root-edited".to_string());
    // Back to main, stream on it.
    app.prev_branch();
    assert_eq!(app.sessions[0].active_branch, 0);
    app.start_streaming_assistant(0, 0);
    app.append_assistant_chunk(0, 0, "par".to_string());
    // Switch away to branch 1 while the worker is still running.
    app.next_branch();
    assert_eq!(app.sessions[0].active_branch, 1);
    assert!(app.streaming_assistant.is_none());
    let before: Vec<String> =
        app.sessions[0].branches[1].messages.iter().map(|m| m.content.clone()).collect();
    app.append_assistant_chunk(0, 0, "tial".to_string());
    app.finish_streaming(0, 0);
    // The late chunk went nowhere.
    assert_eq!(app.sessions[0].branches[0].messages[1].content, "par");
    let after: Vec<String> =
        app.sessions[0].branches[1].messages.iter().map(|m| m.content.clone()).collect();
    assert_eq!(before, after);
}

#[test]
fn session_navigation_clamps() {
    let mut app = fresh_app();
    app.new_session();
    app.new_session();
    assert_eq!(app.sessions.len(), 3);
    assert_eq!(app.active_idx, 2);
    assert_eq!(app.sessions[2].title, "Session 3");
    app.next_session();
    assert_eq!(app.active_idx, 2);
    app.prev_session();
    app.prev_session();
    app.prev_session();
    assert_eq!(app.active_idx, 0);
}

#[test]
fn sidebar_toggle_and_width() {
    let mut app = fresh_app();
    assert_eq!(app.sidebar_width(), 25);
    app.toggle_sidebar();
    assert_eq!(app.sidebar_width(), 3);
    app.toggle_sidebar();
    assert_eq!(app.sidebar_width(), 25);
}

#[test]
fn history_string_renders_labelled_lines() {
    let mut app = fresh_app();
    app.append_message(0, 0, MessageFrom::User, "hi".to_string());
    app.append_message(0, 0, MessageFrom::Assistant, "hello".to_string());
    app.append_message(0, 0, MessageFrom::System, "note".to_string());
    assert_eq!(app.history_string(), "User: hi\nAssistant: hello\nSystem: note");
}

#[test]
fn append_message_returns_index() {
    let mut app = fresh_app();
    assert_eq!(app.append_message(0, 0, MessageFrom::User, "a".to_string()), 0);
    assert_eq!(app.append_message(0, 0, MessageFrom::User, "b".to_string()), 1);
}
