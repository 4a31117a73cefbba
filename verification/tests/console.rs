use server_agent::console::{
    banner, command_request_at, finish_delivery, list_clients, select_client, send_command, send_command_at, Console,
    Delivery, Step,
};
use server_agent::messages::{CommandRequest, ConnectRequest};
use server_agent::server::{ClientState, ServerState};
use tokio::sync::mpsc::Receiver;

fn connect(state: &mut ServerState, id: &str, hostname: &str) -> Receiver<CommandRequest> {
    state
        .connect(ConnectRequest {
            token: "t".to_string(),
            client_id: id.to_string(),
            hostname: hostname.to_string(),
            os: "linux".to_string(),
            version: "0.1.0".to_string(),
        })
        .unwrap()
}

fn server() -> ServerState {
    ServerState::new(vec!["t".to_string()])
}

fn printed(text: &str) -> Step {
    Step::Print(text.to_string())
}

const UNKNOWN: &str =
    "未知命令。请先使用 'select <client_id>' 选择客户端或 'list' 查看客户端列表\n";

#[test]
fn banner_names_the_commands() {
    assert_eq!(
        banner(),
        "\nServerAgent 控制台\n-----------------\n可用命令:\n  list    - 列出所有连接的客户端\n  \
         select <client_id> - 选择客户端\n  exit    - 退出服务器\n\n"
    );
}

#[test]
fn nobody_is_listed_when_nobody_is_connected() {
    assert_eq!(list_clients(&server()), "没有连接的客户端\n");
}

#[test]
fn clients_are_listed_in_columns() {
    let mut state = server();
    let _a = connect(&mut state, "client-web1", "web1");
    let _b = connect(&mut state, "client-数据库", "a-very-long-host-name");
    let mut expected = "连接的客户端 (2):\n".to_string();
    expected += &format!("{:<30} {:<15} {:<10} {:<10}\n", "客户端ID", "主机名", "操作系统", "版本");
    expected += &format!("{:-<30} {:-<15} {:-<10} {:-<10}\n", "", "", "", "");
    for (id, host) in [("client-web1", "web1"), ("client-数据库", "a-very-long-host-name")] {
        expected += &format!("{:<30} {:<15} {:<10} {:<10}\n", id, host, "linux", "0.1.0");
    }
    assert_eq!(list_clients(&state), expected);
}

#[test]
fn connected_client_is_selected() {
    let mut state = server();
    let _a = connect(&mut state, "client-a", "web1");
    assert_eq!(
        select_client(&state, "client-a"),
        (Some("client-a".to_string()), "已选择客户端: client-a (web1)\n".to_string())
    );
    assert_eq!(
        select_client(&state, "client-b"),
        (None, "未找到客户端: client-b\n".to_string())
    );
}

#[test]
fn prompt_shows_the_selected_client() {
    let mut state = server();
    let _a = connect(&mut state, "client-a", "web1");
    let mut console = Console::new();
    assert_eq!(console.prompt(), "$ ");
    console.handle_line(&state, "select client-a\n");
    assert_eq!(console.prompt(), "[client-a] $ ");
}

#[test]
fn blank_lines_do_nothing() {
    let state = server();
    let mut console = Console::new();
    assert_eq!(console.handle_line(&state, ""), Step::Nothing);
    assert_eq!(console.handle_line(&state, " \t\r\n"), Step::Nothing);
    assert_eq!(console.prompt(), "$ ");
}

#[test]
fn console_lists_and_leaves() {
    let mut state = server();
    let mut console = Console::new();
    assert_eq!(console.handle_line(&state, "list\n"), printed("没有连接的客户端\n"));
    let _a = connect(&mut state, "client-a", "web1");
    assert_eq!(
        console.handle_line(&state, "  list all\n"),
        Step::Print(list_clients(&state))
    );
    assert_eq!(
        console.handle_line(&state, "exit now\n"),
        Step::Exit("正在关闭服务器...\n".to_string())
    );
}

#[test]
fn select_needs_an_id() {
    let mut state = server();
    let _a = connect(&mut state, "client-a", "web1");
    let mut console = Console::new();
    console.handle_line(&state, "select client-a");
    assert_eq!(console.handle_line(&state, "select \n"), printed("请指定客户端ID\n"));
    assert_eq!(console.prompt(), "[client-a] $ ");
}

#[test]
fn failed_selection_clears_the_selected_client() {
    let mut state = server();
    let _a = connect(&mut state, "client-a", "web1");
    let mut console = Console::new();
    console.handle_line(&state, "select client-a");
    assert_eq!(
        console.handle_line(&state, "select client-z extra"),
        printed("未找到客户端: client-z\n")
    );
    assert_eq!(console.prompt(), "$ ");
    assert_eq!(console.handle_line(&state, "ls"), printed(UNKNOWN));
}

#[test]
fn commands_need_a_selected_client() {
    let state = server();
    let mut console = Console::new();
    assert_eq!(console.handle_line(&state, "uptime\n"), printed(UNKNOWN));
    assert_eq!(console.handle_line(&state, "LIST\n"), printed(UNKNOWN));
}

#[test]
fn commands_go_to_the_selected_client() {
    let mut state = server();
    let _a = connect(&mut state, "client-a", "web1");
    let mut console = Console::new();
    console.handle_line(&state, "select client-a\n");
    assert_eq!(
        console.handle_line(&state, "  ls   -la /tmp \n"),
        Step::Dispatch {
            client_id: "client-a".to_string(),
            command: "ls   -la /tmp".to_string(),
        }
    );
    assert_eq!(console.prompt(), "[client-a] $ ");
}

#[test]
fn white_space_around_a_line_makes_no_difference() {
    let mut state = server();
    let _a = connect(&mut state, "client-a", "web1");
    for line in ["list", "select client-a", "select", "exit", "ls", ""] {
        let mut one = Console::new();
        let mut two = Console::new();
        let padded = format!(" \t{}\u{3000}\n", line);
        assert_eq!(one.handle_line(&state, line), two.handle_line(&state, &padded));
        assert_eq!(one.prompt(), two.prompt());
    }
}

#[test]
fn command_is_prepared_with_an_id_from_the_time() {
    let mut state = server();
    let mut commands = connect(&mut state, "client-a", "web1");
    match send_command_at(&mut state, "client-a", "uptime", 1700000000123) {
        Delivery::Send { sender, request } => {
            assert_eq!(request.command_id, "cmd-1700000000123");
            assert_eq!(request.command, "uptime");
            assert!(!request.interactive);
            assert!(sender.try_send(request).is_ok());
        }
        Delivery::Failed(text) => panic!("{}", text),
    }
    assert_eq!(commands.try_recv().unwrap().command_id, "cmd-1700000000123");
    assert!(state.get_client("client-a").is_some());
}

#[test]
fn command_ids_differ_between_times() {
    let mut state = server();
    let _commands = connect(&mut state, "client-a", "web1");
    let mut seen: Vec<String> = Vec::new();
    for millis in [-10, -1, 0, 1, 10, 11, 101, 110, i64::MAX, i64::MIN] {
        match send_command_at(&mut state, "client-a", "ls", millis) {
            Delivery::Send { request, .. } => {
                assert_eq!(request.command_id, format!("cmd-{}", millis));
                assert!(!seen.contains(&request.command_id));
                seen.push(request.command_id);
            }
            Delivery::Failed(text) => panic!("{}", text),
        }
    }
}

#[test]
fn clock_gives_the_command_its_id() {
    let mut state = server();
    let _commands = connect(&mut state, "client-a", "web1");
    let before = chrono::Utc::now().timestamp_millis();
    let delivery = send_command(&mut state, "client-a", "ls");
    let after = chrono::Utc::now().timestamp_millis();
    match delivery {
        Delivery::Send { request, .. } => {
            let millis: i64 = request.command_id.strip_prefix("cmd-").unwrap().parse().unwrap();
            assert!(before <= millis && millis <= after);
            assert_eq!(request.command, "ls");
        }
        Delivery::Failed(text) => panic!("{}", text),
    }
}

#[test]
fn command_for_a_stranger_fails() {
    let mut state = server();
    let _a = connect(&mut state, "client-a", "web1");
    match send_command(&mut state, "client-b", "ls") {
        Delivery::Failed(text) => assert_eq!(text, "客户端已断开连接\n"),
        Delivery::Send { .. } => panic!("sent"),
    }
    assert!(state.get_client("client-a").is_some());
}

#[test]
fn client_without_a_channel_is_removed() {
    let mut state = server();
    let _a = connect(&mut state, "client-a", "web1");
    state.update_client(ClientState {
        client_id: "client-b".to_string(),
        hostname: "web2".to_string(),
        os: "linux".to_string(),
        version: "0.1.0".to_string(),
        last_status: None,
        command_sender: None,
    });
    match send_command(&mut state, "client-b", "ls") {
        Delivery::Failed(text) => {
            assert_eq!(text, "无法发送命令: 客户端命令通道不存在\n");
        }
        Delivery::Send { .. } => panic!("sent"),
    }
    assert!(state.get_client("client-b").is_none());
    assert!(state.get_client("client-a").is_some());
}

#[test]
fn sent_command_is_confirmed() {
    let mut state = server();
    let _a = connect(&mut state, "client-a", "web1");
    assert_eq!(
        finish_delivery(&mut state, "client-a", "cmd-5", Ok(())),
        "命令已发送 (ID: cmd-5)\n"
    );
    assert!(state.get_client("client-a").is_some());
}

#[test]
fn client_with_a_closed_channel_is_removed() {
    let mut state = server();
    let commands = connect(&mut state, "client-a", "web1");
    let _b = connect(&mut state, "client-b", "web2");
    drop(commands);
    let delivery = send_command(&mut state, "client-a", "ls");
    match delivery {
        Delivery::Send { sender, request } => {
            let id = request.command_id.clone();
            let error = sender.try_send(request).unwrap_err();
            let shown = format!("{}", error);
            let text = finish_delivery(&mut state, "client-a", &id, Err(shown.clone()));
            assert_eq!(text, format!("发送命令失败: {}\n", shown));
        }
        Delivery::Failed(text) => panic!("{}", text),
    }
    assert!(state.get_client("client-a").is_none());
    assert!(state.get_client("client-b").is_some());
}

#[test]
fn request_holds_the_command() {
    let request = command_request_at("ls -la", 42);
    assert_eq!(request.command_id, "cmd-42");
    assert_eq!(request.command, "ls -la");
    assert!(!request.interactive);
    assert_eq!(command_request_at("", -7).command_id, "cmd--7");
}

#[test]
fn columns_are_filled_or_overrun() {
    let mut state = server();
    let _a = connect(&mut state, "an-id-that-is-wider-than-its-column", "h");
    let text = list_clients(&state);
    let row = text.lines().last().unwrap();
    assert_eq!(
        row,
        "an-id-that-is-wider-than-its-column h               linux      0.1.0     "
    );
    let rule = text.lines().nth(2).unwrap();
    assert_eq!(rule.chars().count(), 30 + 1 + 15 + 1 + 10 + 1 + 10);
}
