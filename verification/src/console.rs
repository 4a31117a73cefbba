//! The console from which the server is run.
//!
//! Everything here is a decision: what to print, which client is selected, which
//! command goes where. Reading the lines, printing and sending are the caller's.

use crate::clock::{is_reading, law_readings_come_from_the_clock, utc_now_millis};
use crate::messages::CommandRequest;
use crate::server::{after_event, by_id, without_client, ClientState, Event, ServerState};
use crate::text::{
    append_padded, append_run, decimal, integer_text, natural_text, padded, run, same_text,
    split_whitespace, texts, trim, trimmed, words,
};
use tokio::sync::mpsc;
use vstd::prelude::*;

verus! {

/// A line of the table of clients.
pub open spec fn table_row(
    id: Seq<char>,
    hostname: Seq<char>,
    os: Seq<char>,
    version: Seq<char>,
) -> Seq<char> {
    padded(id, 30) + " "@ + padded(hostname, 15) + " "@ + padded(os, 10) + " "@ + padded(
        version,
        10,
    ) + "\n"@
}

/// The lines of the table of clients, without its head.
pub open spec fn table_rows(clients: Seq<ClientState>) -> Seq<char>
    decreases clients.len(),
{
    if clients.len() == 0 {
        seq![]
    } else {
        let client = clients.last();
        table_rows(clients.drop_last()) + table_row(
            client.client_id@,
            client.hostname@,
            client.os@,
            client.version@,
        )
    }
}

/// The line under the head of the table of clients.
pub open spec fn table_rule() -> Seq<char> {
    run(30, '-') + " "@ + run(15, '-') + " "@ + run(10, '-') + " "@ + run(10, '-') + "\n"@
}

/// What is printed above the rows of the given number of clients.
pub open spec fn listing_head(n: nat) -> Seq<char> {
    "连接的客户端 ("@ + decimal(n as int) + "):\n"@ + table_row(
        "客户端ID"@,
        "主机名"@,
        "操作系统"@,
        "版本"@,
    ) + table_rule()
}

/// What is printed of the clients that are connected.
pub open spec fn listing(clients: Seq<ClientState>) -> Seq<char> {
    if clients.len() == 0 {
        "没有连接的客户端\n"@
    } else {
        listing_head(clients.len()) + table_rows(clients)
    }
}

fn append_row(out: &mut String, id: &str, hostname: &str, os: &str, version: &str)
    ensures
        final(out)@ == old(out)@ + table_row(id@, hostname@, os@, version@),
{
    append_padded(out, id, 30);
    out.append(" ");
    append_padded(out, hostname, 15);
    out.append(" ");
    append_padded(out, os, 10);
    out.append(" ");
    append_padded(out, version, 10);
    out.append("\n");
    assert(out@ =~= old(out)@ + table_row(id@, hostname@, os@, version@));
}

fn append_rule(out: &mut String)
    ensures
        final(out)@ == old(out)@ + table_rule(),
{
    proof {
        reveal_strlit("-");
    }
    append_run(out, 30, "-");
    out.append(" ");
    append_run(out, 15, "-");
    out.append(" ");
    append_run(out, 10, "-");
    out.append(" ");
    append_run(out, 10, "-");
    out.append("\n");
    assert(out@ =~= old(out)@ + table_rule());
}

/// Tells which clients are connected.
pub fn list_clients(server_state: &ServerState) -> (res: String)
    requires
        server_state.wf(),
    ensures
        res@ == listing(server_state.roster()),
{
    let clients = server_state.get_all_clients();
    if clients.len() == 0 {
        return "没有连接的客户端\n".to_owned();
    }
    let mut out = "连接的客户端 (".to_owned();
    out.append(natural_text(clients.len() as u64).as_str());
    out.append("):\n");
    append_row(&mut out, "客户端ID", "主机名", "操作系统", "版本");
    append_rule(&mut out);
    let ghost head = out@;
    let mut i: usize = 0;
    assert(out@ == head + table_rows(clients@.take(0)));
    while i < clients.len()
        invariant
            i <= clients.len(),
            out@ == head + table_rows(clients@.take(i as int)),
        decreases clients.len() - i,
    {
        let client = &clients[i];
        append_row(
            &mut out,
            client.client_id.as_str(),
            client.hostname.as_str(),
            client.os.as_str(),
            client.version.as_str(),
        );
        assert(clients@.take(i + 1).drop_last() == clients@.take(i as int));
        i = i + 1;
        assert(out@ =~= head + table_rows(clients@.take(i as int)));
    }
    assert(clients@.take(i as int) == clients@);
    out
}

/// Which client is selected when the operator asks for one by its id, and what
/// is printed of it.
pub open spec fn selection(clients: Map<Seq<char>, ClientState>, id: Seq<char>) -> (
    Option<Seq<char>>,
    Seq<char>,
) {
    if clients.contains_key(id) {
        (Some(id), "已选择客户端: "@ + id + " ("@ + clients[id].hostname@ + ")\n"@)
    } else {
        (None, "未找到客户端: "@ + id + "\n"@)
    }
}

/// The text of an optional string.
pub open spec fn optional_text(s: Option<String>) -> Option<Seq<char>> {
    match s {
        Some(s) => Some(s@),
        None => None,
    }
}

/// Selects the client with an id, if it is connected, and tells what to print.
pub fn select_client(server_state: &ServerState, client_id: &str) -> (res: (
    Option<String>,
    String,
))
    requires
        server_state.wf(),
    ensures
        (optional_text(res.0), res.1@) == selection(server_state.clients(), client_id@),
{
    match server_state.get_client(client_id) {
        Some(client) => {
            let mut out = "已选择客户端: ".to_owned();
            out.append(client_id);
            out.append(" (");
            out.append(client.hostname.as_str());
            out.append(")\n");
            (Some(client_id.to_owned()), out)
        },
        None => {
            let mut out = "未找到客户端: ".to_owned();
            out.append(client_id);
            out.append("\n");
            (None, out)
        },
    }
}

/// What the console prints when it starts.
pub open spec fn banner_text() -> Seq<char> {
    "\nServerAgent 控制台\n-----------------\n可用命令:\n  list    - 列出所有连接的客户端\n  select <client_id> - 选择客户端\n  exit    - 退出服务器\n\n"@
}

/// Tells what to print when the console starts.
pub fn banner() -> (res: String)
    ensures
        res@ == banner_text(),
{
    "\nServerAgent 控制台\n-----------------\n可用命令:\n  list    - 列出所有连接的客户端\n  select <client_id> - 选择客户端\n  exit    - 退出服务器\n\n".to_owned()
}

/// What to do with a line that the operator entered.
#[derive(Debug, PartialEq, Eq)]
pub enum Step {
    /// Nothing.
    Nothing,
    /// Print a text.
    Print(String),
    /// Print a text and leave the console.
    Exit(String),
    /// Send a command to a client.
    Dispatch { client_id: String, command: String },
}

/// A step, with the texts that its strings hold.
pub enum StepView {
    Nothing,
    Print(Seq<char>),
    Exit(Seq<char>),
    Dispatch { client_id: Seq<char>, command: Seq<char> },
}

impl View for Step {
    type V = StepView;

    open spec fn view(&self) -> StepView {
        match *self {
            Step::Nothing => StepView::Nothing,
            Step::Print(text) => StepView::Print(text@),
            Step::Exit(text) => StepView::Exit(text@),
            Step::Dispatch { client_id, command } => StepView::Dispatch {
                client_id: client_id@,
                command: command@,
            },
        }
    }
}

/// Which client is selected after a line, and what to do with the line. The first
/// word of the line decides. A line that is no command of the console's own goes
/// to the selected client as it is, without the white space around it.
pub open spec fn console_step(
    selected: Option<Seq<char>>,
    roster: Seq<ClientState>,
    line: Seq<char>,
) -> (Option<Seq<char>>, StepView) {
    let input = trimmed(line);
    let parts = words(input);
    if parts.len() == 0 {
        (selected, StepView::Nothing)
    } else if parts[0] == "list"@ {
        (selected, StepView::Print(listing(roster)))
    } else if parts[0] == "select"@ {
        if parts.len() < 2 {
            (selected, StepView::Print("请指定客户端ID\n"@))
        } else {
            let (chosen, text) = selection(by_id(roster), parts[1]);
            (chosen, StepView::Print(text))
        }
    } else if parts[0] == "exit"@ {
        (selected, StepView::Exit("正在关闭服务器...\n"@))
    } else {
        match selected {
            Some(client_id) => (selected, StepView::Dispatch { client_id, command: input }),
            None => (
                selected,
                StepView::Print(
                    "未知命令。请先使用 'select <client_id>' 选择客户端或 'list' 查看客户端列表\n"@,
                ),
            ),
        }
    }
}

/// The console: the client that is selected, if one is.
pub struct Console {
    selected_client: Option<String>,
}

impl View for Console {
    type V = Option<Seq<char>>;

    closed spec fn view(&self) -> Option<Seq<char>> {
        optional_text(self.selected_client)
    }
}

/// What the console prints before it reads a line.
pub open spec fn prompt_text(selected: Option<Seq<char>>) -> Seq<char> {
    match selected {
        Some(client_id) => "["@ + client_id + "] $ "@,
        None => "$ "@,
    }
}

impl Console {
    /// A console with no client selected.
    pub fn new() -> (res: Self)
        ensures
            res@ is None,
    {
        Console { selected_client: None }
    }

    /// Tells what to print before a line is read.
    pub fn prompt(&self) -> (res: String)
        ensures
            res@ == prompt_text(self@),
    {
        match &self.selected_client {
            Some(client_id) => {
                let mut out = "[".to_owned();
                out.append(client_id.as_str());
                out.append("] $ ");
                out
            },
            None => "$ ".to_owned(),
        }
    }

    /// Takes a line that the operator entered, and tells what to do.
    pub fn handle_line(&mut self, server_state: &ServerState, line: &str) -> (res: Step)
        requires
            server_state.wf(),
        ensures
            (final(self)@, res@) == console_step(old(self)@, server_state.roster(), line@),
    {
        let input = trim(line);
        let parts = split_whitespace(input.as_str());
        proof {
            assert(texts(parts@).len() == parts@.len());
        }
        if parts.len() == 0 {
            return Step::Nothing;
        }
        assert(words(trimmed(line@))[0] == parts@[0]@);
        let first = parts[0].as_str();
        if same_text(first, "list") {
            Step::Print(list_clients(server_state))
        } else if same_text(first, "select") {
            if parts.len() < 2 {
                return Step::Print("请指定客户端ID\n".to_owned());
            }
            assert(words(trimmed(line@))[1] == parts@[1]@);
            let (chosen, text) = select_client(server_state, parts[1].as_str());
            self.selected_client = chosen;
            Step::Print(text)
        } else if same_text(first, "exit") {
            Step::Exit("正在关闭服务器...\n".to_owned())
        } else {
            match &self.selected_client {
                Some(client_id) => Step::Dispatch { client_id: client_id.clone(), command: input },
                None => Step::Print(
                    "未知命令。请先使用 'select <client_id>' 选择客户端或 'list' 查看客户端列表\n".to_owned(),
                ),
            }
        }
    }
}

/// The id of a command that is sent at the given time.
pub open spec fn command_id_at(millis: int) -> Seq<char> {
    "cmd-"@ + decimal(millis)
}

/// What comes of a command that the operator wants to send.
#[derive(Debug)]
pub enum Delivery {
    /// It cannot be sent: print a text.
    Failed(String),
    /// Send the request.
    Send { sender: mpsc::Sender<CommandRequest>, request: CommandRequest },
}

/// What comes of a command for a client, and what the server knows after it, when
/// the clock stands at the given time. A client without a channel is removed.
pub open spec fn sent_at(
    before: ServerState,
    after: ServerState,
    client_id: Seq<char>,
    command: Seq<char>,
    millis: int,
    delivery: Delivery,
) -> bool {
    if !before.clients().contains_key(client_id) {
        &&& after == before
        &&& delivery matches Delivery::Failed(text) && text@ == "客户端已断开连接\n"@
    } else {
        match before.clients()[client_id].command_sender {
            Some(channel) => {
                &&& after == before
                &&& delivery matches Delivery::Send { sender, request } && sender == channel
                    && request.command_id@ == command_id_at(millis) && request.command@ == command
                    && !request.interactive
            },
            None => {
                &&& after.wf()
                &&& after.roster() == without_client(before.roster(), client_id)
                &&& after.clients() == before.clients().remove(client_id)
                &&& after.tokens() == before.tokens()
                &&& after.results() == before.results()
                &&& delivery matches Delivery::Failed(text) && text@
                    == "无法发送命令: 客户端命令通道不存在\n"@
            },
        }
    }
}

/// The channel to a client, or what to print where there is none. A client without
/// a channel is removed.
fn open_channel(server_state: &mut ServerState, client_id: &str) -> (res: Result<
    mpsc::Sender<CommandRequest>,
    String,
>)
    requires
        old(server_state).wf(),
    ensures
        final(server_state).wf(),
        match res {
            Ok(sender) => {
                &&& *final(server_state) == *old(server_state)
                &&& old(server_state).clients().contains_key(client_id@)
                &&& old(server_state).clients()[client_id@].command_sender == Some(sender)
            },
            Err(text) => {
                &&& old(server_state).clients().contains_key(client_id@) ==> old(
                    server_state,
                ).clients()[client_id@].command_sender is None
                &&& forall|command: Seq<char>, millis: int| #[trigger]
                    sent_at(
                        *old(server_state),
                        *final(server_state),
                        client_id@,
                        command,
                        millis,
                        Delivery::Failed(text),
                    )
            },
        },
{
    match server_state.get_client(client_id) {
        Some(client) => match client.command_sender {
            Some(sender) => Ok(sender),
            None => {
                server_state.remove_client(client_id);
                Err("无法发送命令: 客户端命令通道不存在\n".to_owned())
            },
        },
        None => Err("客户端已断开连接\n".to_owned()),
    }
}

/// A request to run a command, with an id from the given time.
pub fn command_request_at(command: &str, millis: i64) -> (res: CommandRequest)
    ensures
        res.command_id@ == command_id_at(millis as int),
        res.command@ == command@,
        !res.interactive,
{
    let mut command_id = "cmd-".to_owned();
    command_id.append(integer_text(millis).as_str());
    CommandRequest { command_id, command: command.to_owned(), interactive: false }
}

/// Prepares a command for a client, at the given time.
pub fn send_command_at(
    server_state: &mut ServerState,
    client_id: &str,
    command: &str,
    millis: i64,
) -> (res: Delivery)
    requires
        old(server_state).wf(),
    ensures
        final(server_state).wf(),
        sent_at(
            *old(server_state),
            *final(server_state),
            client_id@,
            command@,
            millis as int,
            res,
        ),
{
    match open_channel(server_state, client_id) {
        Ok(sender) => Delivery::Send { sender, request: command_request_at(command, millis) },
        Err(text) => Delivery::Failed(text),
    }
}

/// Prepares a command for a client. Its id is made from the time at which this
/// happens.
pub fn send_command(server_state: &mut ServerState, client_id: &str, command: &str) -> (res:
    Delivery)
    requires
        old(server_state).wf(),
    ensures
        final(server_state).wf(),
        exists|millis: i64| #[trigger]
            sent_at(
                *old(server_state),
                *final(server_state),
                client_id@,
                command@,
                millis as int,
                res,
            ),
        res is Send ==> exists|millis: i64| #[trigger]
            is_reading(millis) && sent_at(
                *old(server_state),
                *final(server_state),
                client_id@,
                command@,
                millis as int,
                res,
            ),
{
    match open_channel(server_state, client_id) {
        Ok(sender) => {
            let millis = utc_now_millis();
            proof {
                law_readings_come_from_the_clock(millis);
            }
            let res = Delivery::Send { sender, request: command_request_at(command, millis) };
            assert(sent_at(
                *old(server_state),
                *server_state,
                client_id@,
                command@,
                millis as int,
                res,
            ));
            res
        },
        Err(text) => {
            assert(sent_at(
                *old(server_state),
                *server_state,
                client_id@,
                command@,
                0i64 as int,
                Delivery::Failed(text),
            ));
            Delivery::Failed(text)
        },
    }
}

/// What is printed once a command went into a client's channel, or did not.
pub open spec fn delivery_text(command_id: Seq<char>, outcome: Result<(), String>) -> Seq<char> {
    match outcome {
        Ok(_) => "命令已发送 (ID: "@ + command_id + ")\n"@,
        Err(error) => "发送命令失败: "@ + error@ + "\n"@,
    }
}

/// Takes note of whether a command went into a client's channel, and tells what
/// to print. A client whose channel is closed is removed.
pub fn finish_delivery(
    server_state: &mut ServerState,
    client_id: &str,
    command_id: &str,
    outcome: Result<(), String>,
) -> (res: String)
    requires
        old(server_state).wf(),
    ensures
        final(server_state).wf(),
        res@ == delivery_text(command_id@, outcome),
        outcome is Ok ==> *final(server_state) == *old(server_state),
        outcome is Err ==> {
            &&& final(server_state).roster() == without_client(
                old(server_state).roster(),
                client_id@,
            )
            &&& final(server_state).roster() == after_event(
                old(server_state).tokens(),
                old(server_state).roster(),
                Event::Remove(client_id@),
            )
            &&& final(server_state).clients() == old(server_state).clients().remove(client_id@)
            &&& final(server_state).tokens() == old(server_state).tokens()
            &&& final(server_state).results() == old(server_state).results()
        },
{
    match outcome {
        Ok(_) => {
            let mut out = "命令已发送 (ID: ".to_owned();
            out.append(command_id);
            out.append(")\n");
            out
        },
        Err(error) => {
            let mut out = "发送命令失败: ".to_owned();
            out.append(error.as_str());
            out.append("\n");
            server_state.remove_client(client_id);
            out
        },
    }
}

} // verus!
