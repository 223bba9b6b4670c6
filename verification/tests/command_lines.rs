use mycli::commands::{
    parse_branch_command, parse_session_command, split_words, BranchCommand, SessionCommand,
};

#[test]
fn lines_split_into_words() {
    assert_eq!(split_words("/branch new foo"), vec!["/branch", "new", "foo"]);
    assert_eq!(split_words("  a \t b\nc  "), vec!["a", "b", "c"]);
    assert!(split_words("   ").is_empty());
    assert!(split_words("").is_empty());
}

#[test]
fn branch_commands_parse() {
    match parse_branch_command("/branch new work") {
        BranchCommand::New { name } => assert_eq!(name, "work"),
        other => panic!("expected a new-branch command, got {:?}", other),
    }
    match parse_branch_command("/branch rename old new") {
        BranchCommand::Rename { old_name, new_name } => {
            assert_eq!(old_name, "old");
            assert_eq!(new_name, "new");
        },
        other => panic!("expected a rename command, got {:?}", other),
    }
    // A missing argument parses as the empty name; the store operation
    // reports it.
    match parse_branch_command("/branch delete") {
        BranchCommand::Delete { name } => assert_eq!(name, ""),
        other => panic!("expected a delete command, got {:?}", other),
    }
    assert!(matches!(parse_branch_command("/branch list"), BranchCommand::List));
    assert!(matches!(parse_branch_command("/branch current"), BranchCommand::Current));
    assert!(matches!(parse_branch_command("/branch clear"), BranchCommand::Clear));
    assert!(matches!(parse_branch_command("/branch frobnicate"), BranchCommand::Usage));
    assert!(matches!(parse_branch_command("/branch"), BranchCommand::Usage));
}

#[test]
fn session_commands_parse() {
    assert!(matches!(parse_session_command("/session list"), SessionCommand::List));
    assert!(matches!(parse_session_command("/session current"), SessionCommand::Current));
    assert!(matches!(parse_session_command("/session clear"), SessionCommand::Clear));
    match parse_session_command("/session delete 1716") {
        SessionCommand::Delete { id } => assert_eq!(id, "1716"),
        other => panic!("expected a delete command, got {:?}", other),
    }
    assert!(matches!(parse_session_command("/session bogus"), SessionCommand::Usage));
}
