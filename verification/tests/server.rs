use server_agent::messages::{
    Code, CommandReply, CommandRequest, ConnectRequest, NetworkInfo, StatusReport,
};
use server_agent::server::{
    token_whitelist, ClientState, CommandResultStore, ServerState, CHANNEL_CAPACITY,
};

fn server() -> ServerState {
    ServerState::new(token_whitelist(Some("alpha,beta".to_string())))
}

fn request(token: &str, id: &str) -> ConnectRequest {
    ConnectRequest {
        token: token.to_string(),
        client_id: id.to_string(),
        hostname: format!("host-of-{}", id),
        os: "linux".to_string(),
        version: "0.1.0".to_string(),
    }
}

fn reply(id: &str, code: i32, stdout: &str, stderr: &str) -> CommandReply {
    CommandReply {
        command_id: id.to_string(),
        exit_code: code,
        stdout: stdout.to_string(),
        stderr: stderr.to_string(),
        completed: true,
    }
}

fn report(id: &str, latency: f64) -> StatusReport {
    StatusReport {
        client_id: id.to_string(),
        timestamp_bits: 1_700_000_000.5f64.to_bits(),
        hardware: None,
        network: Some(NetworkInfo {
            ip_address: "10.0.0.7".to_string(),
            tx_bytes: 1,
            rx_bytes: 2,
            tx_speed: 0,
            rx_speed: 0,
        }),
        latency_bits: latency.to_bits(),
    }
}

fn ids(state: &ServerState) -> Vec<String> {
    state.get_all_clients().iter().map(|c| c.client_id.clone()).collect()
}

fn silent_client(id: &str) -> ClientState {
    ClientState {
        client_id: id.to_string(),
        hostname: "h".to_string(),
        os: "o".to_string(),
        version: "v".to_string(),
        last_status: None,
        command_sender: None,
    }
}

#[test]
fn empty_store_has_no_result() {
    let store = CommandResultStore::new();
    assert!(store.get_result("cmd-1").is_none());
}

#[test]
fn stored_result_is_found_and_replaced() {
    let mut store = CommandResultStore::new();
    store.store_result("cmd-1".to_string(), reply("cmd-1", 0, "a", ""));
    store.store_result("cmd-2".to_string(), reply("cmd-2", 1, "", "b"));
    assert_eq!(store.get_result("cmd-1"), Some(&reply("cmd-1", 0, "a", "")));
    store.store_result("cmd-1".to_string(), reply("cmd-1", 7, "c", ""));
    assert_eq!(store.get_result("cmd-1"), Some(&reply("cmd-1", 7, "c", "")));
    assert_eq!(store.get_result("cmd-2"), Some(&reply("cmd-2", 1, "", "b")));
    assert!(store.get_result("cmd").is_none());
}

#[test]
fn tokens_are_configured_or_the_default() {
    assert_eq!(token_whitelist(None), vec!["valid_token_123".to_string()]);
    assert_eq!(
        token_whitelist(Some("a, b,".to_string())),
        vec!["a".to_string(), " b".to_string(), "".to_string()]
    );
    assert_eq!(token_whitelist(Some("".to_string())), vec!["".to_string()]);
}

#[test]
fn listed_tokens_are_valid_and_no_others() {
    let state = server();
    assert!(state.is_token_valid("alpha"));
    assert!(state.is_token_valid("beta"));
    assert!(!state.is_token_valid("alpha,beta"));
    assert!(!state.is_token_valid("Alpha"));
    assert!(!state.is_token_valid(""));
    assert!(!ServerState::new(vec![]).is_token_valid("alpha"));
}

#[test]
fn agent_with_a_valid_token_is_let_in() {
    let mut state = server();
    assert!(state.connect(request("alpha", "client-a")).is_ok());
    let client = state.get_client("client-a").unwrap();
    assert_eq!(client.client_id, "client-a");
    assert_eq!(client.hostname, "host-of-client-a");
    assert_eq!(client.os, "linux");
    assert_eq!(client.version, "0.1.0");
    assert!(client.last_status.is_none());
    assert!(client.command_sender.is_some());
    assert!(state.get_client("client-b").is_none());
}

#[test]
fn agent_with_another_token_is_refused() {
    let mut state = server();
    let refusal = state.connect(request("gamma", "client-a")).unwrap_err();
    assert_eq!(refusal.code, Code::Unauthenticated);
    assert_eq!(refusal.message, "Invalid token");
    assert!(state.get_all_clients().is_empty());
}

#[test]
fn refused_agent_takes_nobodys_place() {
    let mut state = server();
    let mut commands = state.connect(request("alpha", "client-a")).unwrap();
    assert!(state.connect(request("gamma", "client-a")).is_err());
    let client = state.get_client("client-a").unwrap();
    let sent = client.command_sender.unwrap().try_send(CommandRequest {
        command_id: "cmd-1".to_string(),
        command: "ls".to_string(),
        interactive: false,
    });
    assert!(sent.is_ok());
    assert_eq!(commands.try_recv().unwrap().command, "ls");
}

#[test]
fn channel_holds_a_hundred_commands() {
    let mut state = server();
    let mut commands = state.connect(request("beta", "client-a")).unwrap();
    let sender = state.get_client("client-a").unwrap().command_sender.unwrap();
    assert_eq!(CHANNEL_CAPACITY, 100);
    assert_eq!(sender.max_capacity(), 100);
    for i in 0..100 {
        let sent = sender.try_send(CommandRequest {
            command_id: format!("cmd-{}", i),
            command: "ls".to_string(),
            interactive: false,
        });
        assert!(sent.is_ok());
    }
    let refused = sender.try_send(CommandRequest {
        command_id: "cmd-100".to_string(),
        command: "ls".to_string(),
        interactive: false,
    });
    assert!(refused.is_err());
    for i in 0..100 {
        assert_eq!(commands.try_recv().unwrap().command_id, format!("cmd-{}", i));
    }
    assert!(commands.try_recv().is_err());
}

#[test]
fn copies_of_a_client_share_its_channel() {
    let mut state = server();
    let _commands = state.connect(request("alpha", "client-a")).unwrap();
    let _others = state.connect(request("alpha", "client-b")).unwrap();
    let one = state.get_client("client-a").unwrap().command_sender.unwrap();
    let two = state.get_all_clients()[0].command_sender.clone().unwrap();
    let other = state.get_client("client-b").unwrap().command_sender.unwrap();
    assert!(one.same_channel(&two));
    assert!(!one.same_channel(&other));
}

#[test]
fn later_connection_counts() {
    let mut state = server();
    let mut first = state.connect(request("alpha", "client-a")).unwrap();
    let _other = state.connect(request("alpha", "client-b")).unwrap();
    let mut again = request("beta", "client-a");
    again.version = "0.2.0".to_string();
    let mut second = state.connect(again).unwrap();
    assert_eq!(ids(&state), vec!["client-a", "client-b"]);
    let client = state.get_client("client-a").unwrap();
    assert_eq!(client.version, "0.2.0");
    let sent = client.command_sender.unwrap().try_send(CommandRequest {
        command_id: "cmd-1".to_string(),
        command: "ls".to_string(),
        interactive: false,
    });
    assert!(sent.is_ok());
    assert!(first.try_recv().is_err());
    assert!(second.try_recv().is_ok());
}

#[test]
fn removal_undoes_connection() {
    let mut state = server();
    let _a = state.connect(request("alpha", "client-a")).unwrap();
    let _b = state.connect(request("alpha", "client-b")).unwrap();
    let _c = state.connect(request("alpha", "client-c")).unwrap();
    state.remove_client("client-b");
    assert_eq!(ids(&state), vec!["client-a", "client-c"]);
    assert!(state.get_client("client-b").is_none());
    state.remove_client("client-b");
    assert_eq!(ids(&state), vec!["client-a", "client-c"]);
}

#[test]
fn updated_client_keeps_its_place() {
    let mut state = server();
    state.update_client(silent_client("x"));
    state.update_client(silent_client("y"));
    let mut changed = silent_client("x");
    changed.os = "plan9".to_string();
    state.update_client(changed);
    assert_eq!(ids(&state), vec!["x", "y"]);
    assert_eq!(state.get_client("x").unwrap().os, "plan9");
    assert_eq!(state.get_client("y").unwrap().os, "o");
}

#[test]
fn status_of_a_connected_client_is_kept() {
    let mut state = server();
    let _a = state.connect(request("alpha", "client-a")).unwrap();
    let _b = state.connect(request("alpha", "client-b")).unwrap();
    let answer = state.report_status(report("client-a", 12.5));
    assert!(answer.success);
    assert_eq!(answer.message, "Status received");
    let client = state.get_client("client-a").unwrap();
    assert_eq!(client.last_status, Some(report("client-a", 12.5)));
    assert_eq!(client.hostname, "host-of-client-a");
    assert!(client.command_sender.is_some());
    assert!(state.get_client("client-b").unwrap().last_status.is_none());
    state.report_status(report("client-a", 3.0));
    let client = state.get_client("client-a").unwrap();
    assert_eq!(client.last_status, Some(report("client-a", 3.0)));
}

#[test]
fn status_of_a_stranger_is_answered_and_dropped() {
    let mut state = server();
    let answer = state.report_status(report("client-a", 12.5));
    assert!(answer.success);
    assert_eq!(answer.message, "Status received");
    assert!(state.get_all_clients().is_empty());
}

#[test]
fn reply_is_kept_and_printed() {
    let mut state = server();
    let text = state.command_response(reply("cmd-7", -3, "out\n", "bad"));
    assert_eq!(
        text,
        "\n命令执行结果 (ID: cmd-7)\n退出码: -3\n标准输出:\nout\n\n错误输出:\nbad\n\
         ----------------------------------------\n$ "
    );
    let kept = state.command_results().get_result("cmd-7");
    assert_eq!(kept, Some(&reply("cmd-7", -3, "out\n", "bad")));
}

#[test]
fn empty_output_is_not_printed() {
    let mut state = server();
    assert_eq!(
        state.command_response(reply("cmd-8", 0, "", "")),
        "\n命令执行结果 (ID: cmd-8)\n退出码: 0\n----------------------------------------\n$ "
    );
    assert_eq!(
        state.command_response(reply("cmd-9", 127, "", "not found")),
        "\n命令执行结果 (ID: cmd-9)\n退出码: 127\n错误输出:\nnot found\n\
         ----------------------------------------\n$ "
    );
    state.store_command_result("cmd-10".to_string(), reply("cmd-10", 1, "", ""));
    assert_eq!(state.command_results().get_result("cmd-10").unwrap().exit_code, 1);
    assert_eq!(state.command_results().get_result("cmd-8").unwrap().exit_code, 0);
}

#[test]
fn clients_that_are_there_came_with_a_token() {
    let mut state = server();
    let _a = state.connect(request("alpha", "client-a")).unwrap();
    assert!(state.connect(request("wrong", "client-b")).is_err());
    state.report_status(report("client-b", 1.0));
    state.report_status(report("client-a", 2.0));
    let _c = state.connect(request("beta", "client-c")).unwrap();
    assert!(state.connect(request("", "client-c")).is_err());
    state.remove_client("client-b");
    state.report_status(report("client-d", 3.0));
    assert_eq!(ids(&state), vec!["client-a", "client-c"]);
    for client in state.get_all_clients() {
        assert_eq!(client.hostname, format!("host-of-{}", client.client_id));
        if let Some(status) = client.last_status {
            assert_eq!(status.client_id, client.client_id);
            assert_eq!(status, report("client-a", 2.0));
        }
    }
}

#[test]
fn connecting_again_forgets_the_status() {
    let mut state = server();
    let _first = state.connect(request("alpha", "client-a")).unwrap();
    state.report_status(report("client-a", 2.0));
    let _second = state.connect(request("alpha", "client-a")).unwrap();
    assert!(state.get_client("client-a").unwrap().last_status.is_none());
}

#[test]
fn client_is_there_until_its_connection_closes() {
    let mut state = server();
    let commands = state.connect(request("alpha", "client-a")).unwrap();
    let _b = state.connect(request("alpha", "client-b")).unwrap();
    let channel = state.get_client("client-a").unwrap().command_sender.unwrap();
    state.report_status(report("client-a", 1.0));
    state.report_status(report("client-b", 2.0));
    state.remove_client("client-c");
    assert!(state.connect(request("wrong", "client-a")).is_err());
    let client = state.get_client("client-a").unwrap();
    assert_eq!(client.hostname, "host-of-client-a");
    assert!(client.command_sender.unwrap().same_channel(&channel));
    drop(commands);
    state.connection_closed("client-a", &channel);
    assert!(state.get_client("client-a").is_none());
    assert_eq!(ids(&state), vec!["client-b"]);
}

#[test]
fn close_of_an_older_connection_spares_the_newer() {
    let mut state = server();
    let mut older = state.connect(request("alpha", "client-a")).unwrap();
    let older_channel = state.get_client("client-a").unwrap().command_sender.unwrap();
    let mut newer = state.connect(request("alpha", "client-a")).unwrap();
    state.connection_closed("client-a", &older_channel);
    let channel = state.get_client("client-a").unwrap().command_sender.unwrap();
    assert!(!channel.same_channel(&older_channel));
    let sent = channel.try_send(CommandRequest {
        command_id: "cmd-1".to_string(),
        command: "ls".to_string(),
        interactive: false,
    });
    assert!(sent.is_ok());
    assert!(newer.try_recv().is_ok());
    assert!(older.try_recv().is_err());
    state.connection_closed("client-a", &channel);
    assert!(state.get_all_clients().is_empty());
    state.connection_closed("client-a", &channel);
    assert!(state.get_all_clients().is_empty());
}

#[test]
fn close_removes_only_the_client_of_the_channel() {
    let mut state = server();
    let _a = state.connect(request("alpha", "client-a")).unwrap();
    let _b = state.connect(request("alpha", "client-b")).unwrap();
    let of_a = state.get_client("client-a").unwrap().command_sender.unwrap();
    state.connection_closed("client-b", &of_a);
    assert_eq!(ids(&state), vec!["client-a", "client-b"]);
    state.update_client(silent_client("client-a"));
    state.connection_closed("client-a", &of_a);
    assert_eq!(ids(&state), vec!["client-a", "client-b"]);
}

#[test]
fn older_stream_ends_when_its_client_connects_again() {
    let mut state = server();
    let mut older = state.connect(request("alpha", "client-a")).unwrap();
    assert!(!older.is_closed());
    let _newer = state.connect(request("alpha", "client-a")).unwrap();
    assert!(older.is_closed());
    assert!(older.try_recv().is_err());
    assert_eq!(state.get_all_clients().len(), 1);
}
