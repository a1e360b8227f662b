use peekr::api::Status;
use peekr::containers::ContainerInfo;
use peekr::logs::LogLine;
use peekr::protocol::{
    agent_replies, connect_url, is_terminal, needs_container_list, remote_list_result, sse_item,
    AgentMsg, Cmd, Resp, SseItem, CONNECT_PATH, DEFAULT_HUB,
};

fn info(id: &str) -> ContainerInfo {
    ContainerInfo {
        id: id.to_string(),
        name: "web".to_string(),
        image: "nginx".to_string(),
        state: "Running".to_string(),
        status: "Up 2 hours".to_string(),
        project: String::new(),
    }
}

#[test]
fn list_is_answered_with_listing_then_end() {
    let r: Vec<AgentMsg<u8>> = agent_replies(7, &Cmd::List, Some(Ok(vec![info("c1")])));
    assert_eq!(r.len(), 2);
    assert_eq!(r[0], AgentMsg { id: 7, resp: Resp::Containers(vec![info("c1")]) });
    assert_eq!(r[1], AgentMsg { id: 7, resp: Resp::End });
}

#[test]
fn failed_list_is_answered_with_error_then_end() {
    let r: Vec<AgentMsg<u8>> = agent_replies(3, &Cmd::List, Some(Err("docker down".to_string())));
    assert_eq!(r, vec![
        AgentMsg { id: 3, resp: Resp::Error("docker down".to_string()) },
        AgentMsg { id: 3, resp: Resp::End },
    ]);
}

#[test]
fn streams_are_not_served_by_agents_yet() {
    let logs = Cmd::Logs { container: "c1".to_string(), since: None };
    let stats = Cmd::Stats { container: "c1".to_string() };
    for cmd in [logs, stats] {
        assert!(!needs_container_list(&cmd));
        let r: Vec<AgentMsg<u8>> = agent_replies(9, &cmd, None);
        assert_eq!(r, vec![
            AgentMsg { id: 9, resp: Resp::Error("not implemented yet".to_string()) },
            AgentMsg { id: 9, resp: Resp::End },
        ]);
    }
}

#[test]
fn cancel_gets_no_reply() {
    let r: Vec<AgentMsg<u8>> = agent_replies(1, &Cmd::Cancel, None);
    assert!(r.is_empty());
    assert!(needs_container_list(&Cmd::List));
}

#[test]
fn end_and_error_finish_a_request() {
    assert!(is_terminal::<u8>(&Resp::End));
    assert!(is_terminal::<u8>(&Resp::Error("x".to_string())));
    assert!(!is_terminal::<u8>(&Resp::Stat(1)));
    assert!(!is_terminal::<u8>(&Resp::Containers(Vec::new())));
}

#[test]
fn remote_list_maps_first_frame() {
    assert_eq!(remote_list_result::<u8>(Some(Resp::Containers(vec![info("a")]))).unwrap(), vec![info("a")]);
    let e = remote_list_result::<u8>(Some(Resp::Error("boom".to_string()))).unwrap_err();
    assert_eq!((e.status, e.message.as_str()), (Status::BadGateway, "boom"));
    let e = remote_list_result::<u8>(None).unwrap_err();
    assert_eq!((e.status, e.message.as_str()), (Status::BadGateway, "no response from agent"));
    let e = remote_list_result::<u8>(Some(Resp::End)).unwrap_err();
    assert_eq!(e.message, "no response from agent");
    assert_eq!(e.status.code(), 502);
}

#[test]
fn frames_become_sse_items() {
    let line = LogLine { ts: None, stream: "stdout".to_string(), msg: "hi".to_string() };
    assert_eq!(sse_item::<u8>(Resp::Log(line.clone())), Some(SseItem::Log(line)));
    assert_eq!(sse_item::<u8>(Resp::Stat(5)), Some(SseItem::Stat(5)));
    assert_eq!(sse_item::<u8>(Resp::Error("e".to_string())), Some(SseItem::StreamError("e".to_string())));
    assert_eq!(sse_item::<u8>(Resp::End), None);
    assert_eq!(sse_item::<u8>(Resp::Containers(Vec::new())), None);
}

#[test]
fn agent_url_joins_hub_path_and_token() {
    assert_eq!(connect_url(None, "tok"), "ws://localhost:8080/api/agents/connect?token=tok");
    assert_eq!(
        connect_url(Some("wss://hub.example".to_string()), "abc"),
        "wss://hub.example/api/agents/connect?token=abc"
    );
    assert_eq!(DEFAULT_HUB, "ws://localhost:8080");
    assert_eq!(CONNECT_PATH, "/api/agents/connect?token=");
}
