//! The browser modules' pure helpers.

use et_services::browser::{
    append_log, log_line, queued_prompt, turn_label, ChatSession, ChatStep, ChatStop, CHAT_MAX_RUNTIME_POLLS,
    checked_divide, other_connected_agents, string_or_unknown, truncate_history, websocket_url,
    AgentConnectionState, AgentSummary, DivideError, Turn,
};

#[test]
fn the_hub_url_follows_the_page_scheme() {
    assert_eq!(websocket_url("https:", "example.org:8443"), "wss://example.org:8443/ws");
    assert_eq!(websocket_url("http:", "localhost:8080"), "ws://localhost:8080/ws");
}

#[test]
fn checked_divide_reports_unrepresentable_quotients() {
    assert_eq!(checked_divide(84, 4), Ok(21));
    assert_eq!(checked_divide(1, 0), Err(DivideError));
    assert_eq!(checked_divide(i32::MIN, -1), Err(DivideError));
    assert_eq!(checked_divide(-7, 2), Ok(-3));
    assert_eq!(checked_divide(i32::MIN, 1), Ok(i32::MIN));
}

#[test]
fn peers_are_the_other_connected_agents() {
    let agent = |id: &str, state| AgentSummary { agent_id: id.to_string(), state };
    let agents = vec![
        agent("me", AgentConnectionState::Connected),
        agent("a", AgentConnectionState::Disconnected),
        agent("b", AgentConnectionState::Connected),
    ];
    let others: Vec<String> = other_connected_agents(&agents, "me").into_iter().map(|a| a.agent_id).collect();
    assert_eq!(others, vec!["b".to_string()]);
    assert!(other_connected_agents(&agents, "").is_empty());
}

#[test]
fn the_chat_history_keeps_the_last_eight_turns() {
    let mut history: Vec<Turn> =
        (0..11).map(|i| Turn { role: "user".to_string(), content: i.to_string() }).collect();
    truncate_history(&mut history);
    let kept: Vec<String> = history.iter().map(|t| t.content.clone()).collect();
    assert_eq!(kept, (3..11).map(|i: i32| i.to_string()).collect::<Vec<_>>());
    let mut short = vec![Turn { role: "user".to_string(), content: "hi".to_string() }];
    truncate_history(&mut short);
    assert_eq!(short.len(), 1);
}

#[test]
fn empty_gpu_strings_read_unknown() {
    assert_eq!(string_or_unknown(String::new()), "unknown");
    assert_eq!(string_or_unknown("Intel".to_string()), "Intel");
}

#[test]
fn the_chat_loop_polls_answers_and_stops() {
    let mut chat = ChatSession::new();
    assert_eq!(chat.poll(false, false), ChatStep::Wait);
    assert_eq!(chat.poll(false, true), ChatStep::Answer);
    assert_eq!(chat.total_polls, 2);
    for k in 0..5 {
        chat.prompted(format!("q{k}"));
        chat.replied(format!("a{k}"));
    }
    assert_eq!(chat.answered, 5);
    let contents: Vec<&str> = chat.history.iter().map(|t| t.content.as_str()).collect();
    assert_eq!(contents, vec!["q1", "a1", "q2", "a2", "q3", "a3", "q4", "a4"]);
    assert_eq!(chat.history[0].role, "user");
    assert_eq!(chat.history[7].role, "assistant");
    assert_eq!(chat.poll(true, true), ChatStep::Stop(ChatStop::Requested));
    chat.total_polls = CHAT_MAX_RUNTIME_POLLS;
    assert_eq!(chat.poll(false, true), ChatStep::Stop(ChatStop::Runtime));
}

#[test]
fn log_lines_are_tagged_and_appended_on_new_lines() {
    let line = log_line("bluetooth", "entered run()");
    assert_eq!(line, "[bluetooth] entered run()");
    let panel = append_log("", &line);
    assert_eq!(panel, "[bluetooth] entered run()");
    assert_eq!(append_log(&panel, "[bluetooth] done"), "[bluetooth] entered run()\n[bluetooth] done");
}

#[test]
fn blank_chat_input_queues_nothing() {
    assert_eq!(queued_prompt("  hello there \n"), Some("hello there".to_string()));
    assert_eq!(queued_prompt(" \t "), None);
    assert_eq!(queued_prompt(""), None);
}

#[test]
fn turns_are_labelled_by_speaker() {
    assert_eq!(turn_label("user"), "you");
    assert_eq!(turn_label("assistant"), "llm1");
    assert_eq!(turn_label("User"), "llm1");
}
