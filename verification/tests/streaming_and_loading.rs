use mycli::loader::assemble_sessions;
use mycli::memory::{MemorySession, Role};
use mycli::store::{App, Branch, BackendEvent, Message, MessageFrom};
use mycli::streamer::{chunk_text, help_text, stream_help_message};
use mycli::strutil::usize_to_string;

#[test]
fn chunks_concatenate_back_to_the_text() {
    let text = "Hello there,\nthis is a longer text that gets sliced.";
    let chunks = chunk_text(text, 12);
    let mut joined = String::new();
    for c in &chunks {
        assert!(!c.is_empty());
        assert!(c.chars().count() <= 12);
        joined.push_str(c);
    }
    assert_eq!(joined, text);
}

#[test]
fn chunks_flush_at_newlines() {
    let chunks = chunk_text("ab\ncd", 12);
    assert_eq!(chunks, vec!["ab\n".to_string(), "cd".to_string()]);
}

#[test]
fn help_stream_replays_the_help_text() {
    let events = stream_help_message(2, 1);
    let mut joined = String::new();
    for e in &events {
        match e {
            BackendEvent::AssistantChunk { session_idx, branch_idx, chunk } => {
                assert_eq!((*session_idx, *branch_idx), (2, 1));
                joined.push_str(chunk);
            },
            BackendEvent::AssistantDone { .. } => panic!("the stream carries only chunks"),
        }
    }
    assert_eq!(joined, help_text());
}

#[test]
fn help_events_drive_the_store() {
    // Delivering the help stream through the cursor reproduces the help
    // text as the assistant message.
    let mut app = App::new(Vec::new());
    app.start_streaming_assistant(0, 0);
    for e in stream_help_message(0, 0) {
        match e {
            BackendEvent::AssistantChunk { session_idx, branch_idx, chunk } => {
                app.append_assistant_chunk(session_idx, branch_idx, chunk);
            },
            BackendEvent::AssistantDone { session_idx, branch_idx } => {
                app.finish_streaming(session_idx, branch_idx);
            },
        }
    }
    app.finish_streaming(0, 0);
    assert_eq!(app.sessions[0].branches[0].messages[0].content, help_text());
}

#[test]
fn memory_session_builds_prompts() {
    let mut mem = MemorySession::new();
    assert_eq!(Role::User.as_str(), "User");
    assert_eq!(Role::Assistant.as_str(), "Assistant");
    mem.add(Role::User, "hi".to_string());
    mem.add(Role::Assistant, "hello".to_string());
    assert_eq!(mem.build_prompt(), "User: hi\nAssistant: hello\nAssistant:");
    assert_eq!(mem.history_text(), "User: hi\nAssistant: hello");
    assert_eq!(mem.messages.len(), 2);
}

#[test]
fn decimal_rendering_is_exact() {
    assert_eq!(usize_to_string(0), "0");
    assert_eq!(usize_to_string(7), "7");
    assert_eq!(usize_to_string(10), "10");
    assert_eq!(usize_to_string(90217), "90217");
}

fn branch(name: &str, content: &str) -> Branch {
    Branch {
        id: 0,
        name: name.to_string(),
        messages: vec![Message { from: MessageFrom::User, content: content.to_string() }],
    }
}

#[test]
fn loading_groups_branches_by_session_key() {
    let items = vec![
        ("Session 1".to_string(), branch("main", "a")),
        ("Session 2".to_string(), branch("main", "b")),
        ("Session 1".to_string(), branch("branch-1", "c")),
    ];
    let sessions = assemble_sessions(items);
    assert_eq!(sessions.len(), 2);
    assert_eq!(sessions[0].title, "Session 1");
    assert_eq!(sessions[0].branches.len(), 2);
    assert_eq!(sessions[0].branches[0].name, "main");
    assert_eq!(sessions[0].branches[1].name, "branch-1");
    // The most recently seen branch of each session is selected.
    assert_eq!(sessions[0].active_branch, 1);
    assert_eq!(sessions[1].title, "Session 2");
    assert_eq!(sessions[1].branches.len(), 1);
    assert_eq!(sessions[1].active_branch, 0);
    // The rebuilt sessions drive the store directly.
    let app = App::new(assemble_sessions(vec![(
        "Session 1".to_string(),
        branch("main", "a"),
    )]));
    assert_eq!(app.sessions.len(), 1);
    assert_eq!(app.sessions[0].branches[0].messages[0].content, "a");
}

#[test]
fn loading_nothing_gives_no_sessions() {
    let sessions = assemble_sessions(Vec::new());
    assert!(sessions.is_empty());
}
