use mycli::branches::OpOutcome;
use mycli::store::{App, MessageFrom};

fn app_with_history() -> App {
    let mut app = App::new(Vec::new());
    app.append_message(0, 0, MessageFrom::User, "hi".to_string());
    app.append_message(0, 0, MessageFrom::Assistant, "hello".to_string());
    app
}

#[test]
fn delete_main_is_always_rejected() {
    // Freshly created store.
    let mut app = App::new(Vec::new());
    assert_eq!(app.branch_delete("main"), OpOutcome::RefusedMain);
    assert_eq!(app.sessions[0].branches.len(), 1);
    // With history and extra branches.
    let mut app = app_with_history();
    assert_eq!(app.branch_new("work"), OpOutcome::Done);
    assert_eq!(app.branch_delete("main"), OpOutcome::RefusedMain);
    assert_eq!(app.sessions[0].branches.len(), 2);
    assert_eq!(app.sessions[0].branches[0].name, "main");
    // Even while streaming.
    app.start_streaming_assistant(0, 0);
    assert_eq!(app.branch_delete("main"), OpOutcome::RefusedMain);
    assert!(app.streaming_assistant.is_some());
}

#[test]
fn branch_new_copies_current_history() {
    let mut app = app_with_history();
    assert_eq!(app.branch_new("work"), OpOutcome::Done);
    let session = &app.sessions[0];
    assert_eq!(session.branches.len(), 2);
    assert_eq!(session.branches[1].name, "work");
    assert_eq!(session.branches[1].messages.len(), 2);
    assert_eq!(session.branches[1].messages[0].content, "hi");
    assert_eq!(session.active_branch, 1);
    // A taken name and a missing name are rejected without changes.
    assert_eq!(app.branch_new("work"), OpOutcome::AlreadyExists);
    assert_eq!(app.branch_new(""), OpOutcome::MissingName);
    assert_eq!(app.sessions[0].branches.len(), 2);
}

#[test]
fn branch_switch_finds_by_name() {
    let mut app = app_with_history();
    app.branch_new("work");
    assert_eq!(app.branch_switch("main"), OpOutcome::Done);
    assert_eq!(app.sessions[0].active_branch, 0);
    assert_eq!(app.branch_switch("nowhere"), OpOutcome::NotFound);
    assert_eq!(app.branch_switch(""), OpOutcome::MissingName);
    assert_eq!(app.sessions[0].active_branch, 0);
}

#[test]
fn branch_delete_falls_back_to_main() {
    let mut app = app_with_history();
    app.branch_new("work");
    assert_eq!(app.sessions[0].active_branch, 1);
    assert_eq!(app.branch_delete("work"), OpOutcome::Done);
    assert_eq!(app.sessions[0].branches.len(), 1);
    assert_eq!(app.sessions[0].branches[0].name, "main");
    assert_eq!(app.sessions[0].active_branch, 0);
    assert_eq!(app.branch_delete("work"), OpOutcome::NotFound);
}

#[test]
fn branch_rename_rules() {
    let mut app = app_with_history();
    app.branch_new("work");
    assert_eq!(app.branch_rename("main", "other"), OpOutcome::RefusedMain);
    assert_eq!(app.branch_rename("", "x"), OpOutcome::MissingName);
    assert_eq!(app.branch_rename("work", ""), OpOutcome::MissingName);
    assert_eq!(app.branch_rename("missing", "x"), OpOutcome::NotFound);
    assert_eq!(app.branch_rename("work", "main"), OpOutcome::AlreadyExists);
    assert_eq!(app.branch_rename("work", "play"), OpOutcome::Done);
    assert_eq!(app.sessions[0].branches[1].name, "play");
    assert_eq!(app.sessions[0].branches[1].messages.len(), 2);
}

#[test]
fn clear_other_branches_keeps_only_main() {
    let mut app = app_with_history();
    app.branch_new("work");
    app.branch_new("play");
    assert_eq!(app.sessions[0].branches.len(), 3);
    assert_eq!(app.clear_other_branches(), OpOutcome::Done);
    assert_eq!(app.sessions[0].branches.len(), 1);
    assert_eq!(app.sessions[0].branches[0].name, "main");
    assert_eq!(app.sessions[0].active_branch, 0);
    assert_eq!(app.sessions[0].branches[0].messages.len(), 2);
}

#[test]
fn session_delete_by_id() {
    let mut app = App::new(Vec::new());
    app.new_session();
    app.new_session();
    let id1 = app.sessions[1].id.clone();
    assert_eq!(app.session_delete(&id1), OpOutcome::Done);
    assert_eq!(app.sessions.len(), 2);
    assert_eq!(app.sessions[0].title, "Session 1");
    assert_eq!(app.sessions[1].title, "Session 3");
    assert_eq!(app.session_delete("no-such-id"), OpOutcome::NotFound);
    // Deleting the last session leaves one fresh session behind.
    let id_a = app.sessions[0].id.clone();
    let id_b = app.sessions[1].id.clone();
    assert_eq!(app.session_delete(&id_a), OpOutcome::Done);
    assert_eq!(app.session_delete(&id_b), OpOutcome::Done);
    assert_eq!(app.sessions.len(), 1);
    assert_eq!(app.sessions[0].title, "Session 1");
    assert!(app.sessions[0].branches[0].messages.is_empty());
}
