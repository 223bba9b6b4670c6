use mycli::agent::{
    agent_user_content, has_done_token, system_instruction_text, tool_result_display, AgentDecision,
    AgentState,
};

#[test]
fn step_with_tool_call_decides_to_run_it() {
    let mut state = AgentState::new("list files".to_string(), String::new(), 20);
    let answer = "I will look. <use_tool name=\"filesystem.read\" params={\"path\":\"a.txt\"}/>";
    match state.step(answer) {
        AgentDecision::RunTool { call, finish_after } => {
            assert_eq!(call.name, "filesystem.read");
            assert_eq!(call.path.as_deref(), Some("a.txt"));
            assert!(!finish_after);
        },
        AgentDecision::Finish => panic!("expected a tool decision"),
    }
    assert_eq!(state.iterations_left, 19);
    assert_eq!(state.history, format!("\nAssistant: {}", answer));
    state.note_tool_result("Read file 'a.txt' (1 bytes). Content:\nX");
    assert!(state.history.ends_with("\nTool result: Read file 'a.txt' (1 bytes). Content:\nX"));
}

#[test]
fn step_without_tool_call_finishes() {
    let mut state = AgentState::new("hi".to_string(), String::new(), 20);
    match state.step("The answer is 4. Done.") {
        AgentDecision::Finish => {},
        AgentDecision::RunTool { .. } => panic!("no tool was called"),
    }
}

#[test]
fn completion_token_after_tool_finishes_the_loop() {
    let mut state = AgentState::new("go".to_string(), String::new(), 20);
    let answer = "<use_tool name=\"shell.run\" params={\"content\":\"ls\"}/> done.";
    match state.step(answer) {
        AgentDecision::RunTool { finish_after, .. } => assert!(finish_after),
        AgentDecision::Finish => panic!("expected a tool decision"),
    }
}

#[test]
fn exhausted_budget_finishes_after_the_tool() {
    let mut state = AgentState::new("go".to_string(), String::new(), 1);
    let answer = "<use_tool name=\"shell.run\" params={\"content\":\"ls\"}/> more to do";
    match state.step(answer) {
        AgentDecision::RunTool { finish_after, .. } => assert!(finish_after),
        AgentDecision::Finish => panic!("expected a tool decision"),
    }
    assert_eq!(state.iterations_left, 0);
}

#[test]
fn done_token_is_found_case_insensitively() {
    assert!(has_done_token("All finished. Done."));
    assert!(has_done_token("all finished. dONE.!"));
    assert!(has_done_token("Done."));
    assert!(!has_done_token("Done"));
    assert!(!has_done_token("don e."));
    assert!(!has_done_token(""));
    assert!(!has_done_token("overdone"));
    assert!(has_done_token("overdone."));
}

#[test]
fn prompt_pieces_are_exact() {
    assert_eq!(
        agent_user_content("p", "h"),
        "User initial prompt:\np\n\nConversation so far:\nh\n\nContinue reasoning or issue next tool call if needed."
    );
    assert_eq!(tool_result_display("shell.run", "ok"), "\n[Tool: shell.run]\nresult: ok\n");
    let sys = system_instruction_text();
    assert!(sys.contains("filesystem.read"));
    assert!(sys.contains("filesystem.write"));
    assert!(sys.contains("shell.run"));
    assert!(sys.contains("only one <use_tool>"));
    assert!(sys.contains("'Done.'"));
}
