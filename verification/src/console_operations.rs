//! What the calls of the console give for what they are given.

use crate::clock::is_reading;
use crate::console::{
    command_request_at, finish_delivery, list_clients, select_client, send_command,
    send_command_at, table_row, table_rows, table_rule, Console, Delivery, Step,
};
use crate::laws::{holds, law_listing_shows_every_client, law_words_of_trimmed};
use crate::messages::{CommandRequest, ConnectRequest, Status};
use crate::server::{listed, place, ClientState, ServerState};
use crate::server_operations::{has_other_id, lemma_is_removed};
use crate::text::{
    decimal, integer_text, natural_text, padded, split_whitespace, texts, trim, trimmed, words,
};
use tokio::sync::mpsc;
use vstd::prelude::*;

verus! {

/// The larger of two widths.
pub open spec fn wider(a: nat, b: nat) -> nat {
    if a < b {
        b
    } else {
        a
    }
}

/// A text has a part at a position, and then spaces up to the end of the column
/// that starts there.
pub open spec fn has_column(text: Seq<char>, at: int, part: Seq<char>, width: nat) -> bool {
    &&& 0 <= at
    &&& at + wider(part.len(), width) <= text.len()
    &&& forall|i: int| 0 <= i < part.len() ==> #[trigger] text[at + i] == part[i]
    &&& forall|i: int| part.len() <= i < width ==> #[trigger] text[at + i] == ' '
}

/// A row of the table has the id, the hostname, the system and the version of a
/// client, in columns that are 30, 15, 10 and 10 characters wide, or as wide as
/// what stands in them. Between two columns is a space, and at the end is the end
/// of the line.
pub proof fn law_row(id: Seq<char>, hostname: Seq<char>, os: Seq<char>, version: Seq<char>)
    ensures
        ({
            let row = table_row(id, hostname, os, version);
            let second = wider(id.len(), 30) + 1;
            let third = second + wider(hostname.len(), 15) + 1;
            let fourth = third + wider(os.len(), 10) + 1;
            let end = fourth + wider(version.len(), 10);
            &&& has_column(row, 0, id, 30)
            &&& row[second - 1] == ' '
            &&& has_column(row, second as int, hostname, 15)
            &&& row[third - 1] == ' '
            &&& has_column(row, third as int, os, 10)
            &&& row[fourth - 1] == ' '
            &&& has_column(row, fourth as int, version, 10)
            &&& row[end as int] == '\n'
            &&& row.len() == end + 1
        }),
{
    reveal_strlit(" ");
    reveal_strlit("\n");
    let row = table_row(id, hostname, os, version);
    let second = wider(id.len(), 30) + 1;
    let third = second + wider(hostname.len(), 15) + 1;
    let fourth = third + wider(os.len(), 10) + 1;
    let end = fourth + wider(version.len(), 10);
    let a = padded(id, 30);
    let b = padded(hostname, 15);
    let c = padded(os, 10);
    let d = padded(version, 10);
    assert(row.subrange(0, second - 1) =~= a);
    assert(row.subrange(second as int, third - 1) =~= b);
    assert(row.subrange(third as int, fourth - 1) =~= c);
    assert(row.subrange(fourth as int, end as int) =~= d);
    lemma_column(row, 0, id, 30);
    lemma_column(row, second as int, hostname, 15);
    lemma_column(row, third as int, os, 10);
    lemma_column(row, fourth as int, version, 10);
}

proof fn lemma_column(text: Seq<char>, at: int, part: Seq<char>, width: nat)
    requires
        0 <= at,
        at + wider(part.len(), width) <= text.len(),
        text.subrange(at, at + wider(part.len(), width)) == padded(part, width),
    ensures
        has_column(text, at, part, width),
{
    let column = text.subrange(at, at + wider(part.len(), width));
    assert forall|i: int| 0 <= i < part.len() implies #[trigger] text[at + i] == part[i] by {
        assert(column[i] == text[at + i]);
    }
    assert forall|i: int| part.len() <= i < width implies #[trigger] text[at + i] == ' ' by {
        assert(column[i] == text[at + i]);
    }
}

/// Tells the row of a client.
pub open spec fn row_of() -> spec_fn(ClientState) -> Seq<char> {
    |client: ClientState|
        table_row(client.client_id@, client.hostname@, client.os@, client.version@)
}

proof fn lemma_rows(clients: Seq<ClientState>)
    ensures
        table_rows(clients) == clients.map_values(row_of()).flatten(),
    decreases clients.len(),
{
    let rows = clients.map_values(row_of());
    rows.lemma_flatten_and_flatten_alt_are_equivalent();
    if clients.len() > 0 {
        let front = clients.drop_last();
        let front_rows = front.map_values(row_of());
        lemma_rows(front);
        front_rows.lemma_flatten_and_flatten_alt_are_equivalent();
        assert(rows.drop_last() =~= front_rows);
        assert(rows.last() == row_of()(clients.last()));
    }
}

/// The list of clients tells their number, has a head and a rule under it, and
/// then the row of each client, in their order. Where there are no clients it says
/// so.
pub proof fn law_list(
    state: ServerState,
    clients: Vec<ClientState>,
    count: String,
    text: String,
)
    requires
        call_ensures(ServerState::get_all_clients, (&state,), clients),
        call_ensures(natural_text, (clients.len() as u64,), count),
        call_ensures(list_clients, (&state,), text),
    ensures
        clients@.len() == 0 ==> text@ == "没有连接的客户端\n"@,
        clients@.len() > 0 ==> text@ == "连接的客户端 ("@ + count@ + "):\n"@ + table_row(
            "客户端ID"@,
            "主机名"@,
            "操作系统"@,
            "版本"@,
        ) + "------------------------------ --------------- ---------- ----------\n"@
            + clients@.map_values(row_of()).flatten(),
{
    lemma_rows(clients@);
    lemma_rule();
}

proof fn lemma_rule()
    ensures
        table_rule() == "------------------------------ --------------- ---------- ----------\n"@,
{
    reveal_strlit(" ");
    reveal_strlit("\n");
    reveal_strlit("------------------------------ --------------- ---------- ----------\n");
    assert(table_rule() =~= "------------------------------ --------------- ---------- ----------\n"@);
}

/// A client that has just connected is in the list, with the id, the hostname, the
/// system and the version that it gave.
pub proof fn law_connected_client_is_listed(
    state: &mut ServerState,
    request: ConnectRequest,
    res: Result<mpsc::Receiver<CommandRequest>, Status>,
    text: String,
)
    requires
        old(state).wf(),
        call_ensures(ServerState::connect, (state, request), res),
        res is Ok,
        call_ensures(list_clients, (&*final(state),), text),
    ensures
        holds(
            text@,
            table_row(
                request.client_id@,
                request.hostname@,
                request.os@,
                request.version@,
            ),
        ),
{
    let before = old(state).roster();
    let id = request.client_id@;
    let i = if listed(before, id) {
        place(before, id)
    } else {
        before.len() as int
    };
    assert(final(state).roster()[i].client_id@ == id);
    law_listing_shows_every_client(final(state).roster(), i);
}

/// To select a client by its id selects it exactly where it is connected, and
/// tells its id and its hostname. Otherwise none is selected, and it is told that
/// there is none with the id.
pub proof fn law_select(
    state: ServerState,
    id: &str,
    found: Option<ClientState>,
    res: (Option<String>, String),
)
    requires
        call_ensures(ServerState::get_client, (&state, id), found),
        call_ensures(select_client, (&state, id), res),
    ensures
        found matches Some(client) ==> {
            &&& res.0 matches Some(chosen) && chosen@ == id@
            &&& res.1@ == "已选择客户端: "@ + id@ + " ("@ + client.hostname@ + ")\n"@
        },
        found is None ==> res.0 is None && res.1@ == "未找到客户端: "@ + id@ + "\n"@,
{
}

/// A console that was just started has no client selected.
pub proof fn law_new_console(console: Console)
    requires
        call_ensures(Console::new, (), console),
    ensures
        console@ is None,
{
}

/// The prompt shows the selected client, if one is selected.
pub proof fn law_prompt(console: Console, res: String)
    requires
        call_ensures(Console::prompt, (&console,), res),
    ensures
        console@ is None ==> res@ == "$ "@,
        console@ matches Some(id) ==> res@ == "["@ + id + "] $ "@,
{
}

proof fn lemma_parts(line: &str, parts: Vec<String>)
    requires
        call_ensures(split_whitespace, (line,), parts),
    ensures
        words(trimmed(line@)).len() == parts@.len(),
        forall|i: int|
            0 <= i < parts@.len() ==> words(trimmed(line@))[i] == #[trigger] parts@[i]@,
{
    law_words_of_trimmed(line@);
    assert(texts(parts@).len() == parts@.len());
    assert forall|i: int| 0 <= i < parts@.len() implies words(trimmed(line@))[i]
        == #[trigger] parts@[i]@ by {
        assert(texts(parts@)[i] == parts@[i]@);
    }
}

/// A line without words does nothing.
pub proof fn law_line_without_words(
    console: &mut Console,
    state: ServerState,
    line: &str,
    parts: Vec<String>,
    step: Step,
)
    requires
        call_ensures(split_whitespace, (line,), parts),
        parts@.len() == 0,
        call_ensures(Console::handle_line, (console, &state, line), step),
    ensures
        step is Nothing,
        final(console)@ == old(console)@,
{
    lemma_parts(line, parts);
}

/// A line whose first word is `list` prints the list of clients, whichever client
/// is selected and whatever else is on the line. The selected client stays.
pub proof fn law_line_that_lists(
    console: &mut Console,
    state: ServerState,
    line: &str,
    parts: Vec<String>,
    list: String,
    step: Step,
)
    requires
        call_ensures(split_whitespace, (line,), parts),
        parts@.len() > 0,
        parts@[0]@ == "list"@,
        call_ensures(list_clients, (&state,), list),
        call_ensures(Console::handle_line, (console, &state, line), step),
    ensures
        step matches Step::Print(text) && text@ == list@,
        final(console)@ == old(console)@,
{
    lemma_parts(line, parts);
}

/// A line whose first word is `list` prints the row of every client that is
/// connected, whichever client is selected: its id, its hostname, its system and
/// its version.
pub proof fn law_line_that_lists_shows_every_client(
    console: &mut Console,
    state: ServerState,
    line: &str,
    parts: Vec<String>,
    clients: Vec<ClientState>,
    i: int,
    step: Step,
)
    requires
        call_ensures(split_whitespace, (line,), parts),
        parts@.len() > 0,
        parts@[0]@ == "list"@,
        call_ensures(ServerState::get_all_clients, (&state,), clients),
        0 <= i < clients@.len(),
        call_ensures(Console::handle_line, (console, &state, line), step),
    ensures
        step matches Step::Print(text) && holds(
            text@,
            table_row(
                clients@[i].client_id@,
                clients@[i].hostname@,
                clients@[i].os@,
                clients@[i].version@,
            ),
        ),
{
    lemma_parts(line, parts);
    law_listing_shows_every_client(clients@, i);
}

/// A line whose only word is `select` asks for an id, and the selected client
/// stays.
pub proof fn law_line_that_selects_nothing(
    console: &mut Console,
    state: ServerState,
    line: &str,
    parts: Vec<String>,
    step: Step,
)
    requires
        call_ensures(split_whitespace, (line,), parts),
        parts@.len() == 1,
        parts@[0]@ == "select"@,
        call_ensures(Console::handle_line, (console, &state, line), step),
    ensures
        step matches Step::Print(text) && text@ == "请指定客户端ID\n"@,
        final(console)@ == old(console)@,
{
    lemma_parts(line, parts);
    lemma_own_words();
}

/// A line whose first word is `select` selects the client with the id that is its
/// second word, if it is connected, and none otherwise, and prints which.
pub proof fn law_line_that_selects(
    console: &mut Console,
    state: ServerState,
    line: &str,
    parts: Vec<String>,
    id: &str,
    found: Option<ClientState>,
    step: Step,
)
    requires
        call_ensures(split_whitespace, (line,), parts),
        parts@.len() >= 2,
        parts@[0]@ == "select"@,
        id@ == parts@[1]@,
        call_ensures(ServerState::get_client, (&state, id), found),
        call_ensures(Console::handle_line, (console, &state, line), step),
    ensures
        found matches Some(client) ==> {
            &&& final(console)@ == Some(id@)
            &&& step matches Step::Print(text) && text@ == "已选择客户端: "@ + id@ + " ("@
                + client.hostname@ + ")\n"@
        },
        found is None ==> {
            &&& final(console)@ is None
            &&& step matches Step::Print(text) && text@ == "未找到客户端: "@ + id@ + "\n"@
        },
{
    lemma_parts(line, parts);
    lemma_own_words();
}

/// A line whose first word is `exit` leaves the console with a word of goodbye.
pub proof fn law_line_that_leaves(
    console: &mut Console,
    state: ServerState,
    line: &str,
    parts: Vec<String>,
    step: Step,
)
    requires
        call_ensures(split_whitespace, (line,), parts),
        parts@.len() > 0,
        parts@[0]@ == "exit"@,
        call_ensures(Console::handle_line, (console, &state, line), step),
    ensures
        step matches Step::Exit(text) && text@ == "正在关闭服务器...\n"@,
        final(console)@ == old(console)@,
{
    lemma_parts(line, parts);
    lemma_own_words();
}

/// Any other line is a command for the selected client, without the white space
/// around it. Where none is selected it is told what to do. The selected client
/// stays.
pub proof fn law_any_other_line(
    console: &mut Console,
    state: ServerState,
    line: &str,
    parts: Vec<String>,
    whole: String,
    step: Step,
)
    requires
        call_ensures(split_whitespace, (line,), parts),
        parts@.len() > 0,
        parts@[0]@ != "list"@,
        parts@[0]@ != "select"@,
        parts@[0]@ != "exit"@,
        call_ensures(trim, (line,), whole),
        call_ensures(Console::handle_line, (console, &state, line), step),
    ensures
        old(console)@ matches Some(id) ==> (step matches Step::Dispatch { client_id, command }
            && client_id@ == id && command@ == whole@),
        old(console)@ is None ==> (step matches Step::Print(text) && text@
            == "未知命令。请先使用 'select <client_id>' 选择客户端或 'list' 查看客户端列表\n"@),
        final(console)@ == old(console)@,
{
    lemma_parts(line, parts);
}

proof fn lemma_own_words()
    ensures
        "list"@ != "select"@,
        "list"@ != "exit"@,
        "select"@ != "exit"@,
{
    reveal_strlit("list");
    reveal_strlit("select");
    reveal_strlit("exit");
    assert("list"@[0] != "select"@[0]);
    assert("list"@[0] != "exit"@[0]);
    assert("select"@[0] != "exit"@[0]);
}

/// A request to run a command has the command as it is, and an id made of `cmd-`
/// and the time.
pub proof fn law_request(command: &str, millis: i64, time: String, res: CommandRequest)
    requires
        call_ensures(integer_text, (millis,), time),
        call_ensures(command_request_at, (command, millis), res),
    ensures
        res.command_id@ == "cmd-"@ + time@,
        res.command@ == command@,
        !res.interactive,
{
}

/// What comes of a command for a client, as the client was found before. Where
/// there is none, nothing is sent and nothing changes. Where it has a channel, the
/// command goes into that channel, and nothing changes. Where it has none, nothing
/// is sent and the client is removed.
pub open spec fn is_sent(
    before: ServerState,
    after: ServerState,
    found: Option<ClientState>,
    id: Seq<char>,
    command: Seq<char>,
    time: Seq<char>,
    res: Delivery,
) -> bool {
    match found {
        None => {
            &&& after == before
            &&& res matches Delivery::Failed(text) && text@ == "客户端已断开连接\n"@
        },
        Some(client) => match client.command_sender {
            Some(channel) => {
                &&& after == before
                &&& res matches Delivery::Send { sender, request } && sender == channel
                    && request.command@ == command && request.command_id@ == "cmd-"@ + time
                    && !request.interactive
            },
            None => {
                &&& after.roster() == before.roster().filter(has_other_id(id))
                &&& after.tokens() == before.tokens()
                &&& after.results() == before.results()
                &&& res matches Delivery::Failed(text) && text@
                    == "无法发送命令: 客户端命令通道不存在\n"@
            },
        },
    }
}

/// A command at a given time is sent to the client with the id, if that can be
/// done.
pub proof fn law_send_at_a_time(
    state: &mut ServerState,
    id: &str,
    command: &str,
    millis: i64,
    time: String,
    found: Option<ClientState>,
    res: Delivery,
)
    requires
        old(state).wf(),
        call_ensures(ServerState::get_client, (&*old(state), id), found),
        call_ensures(integer_text, (millis,), time),
        call_ensures(send_command_at, (state, id, command, millis), res),
    ensures
        is_sent(*old(state), *final(state), found, id@, command@, time@, res),
{
    lemma_is_removed(old(state).roster(), id@);
}

/// A command is sent to the client with the id, if that can be done. Its id is
/// made from a reading of the clock.
pub proof fn law_send(
    state: &mut ServerState,
    id: &str,
    command: &str,
    found: Option<ClientState>,
    res: Delivery,
)
    requires
        old(state).wf(),
        call_ensures(ServerState::get_client, (&*old(state), id), found),
        call_ensures(send_command, (state, id, command), res),
    ensures
        res is Send <==> (found matches Some(client) && client.command_sender is Some),
        res is Send ==> exists|millis: i64| #[trigger]
            is_reading(millis) && is_sent(
                *old(state),
                *final(state),
                found,
                id@,
                command@,
                decimal(millis as int),
                res,
            ),
        res is Failed ==> forall|time: Seq<char>| #[trigger]
            is_sent(*old(state), *final(state), found, id@, command@, time, res),
{
    lemma_is_removed(old(state).roster(), id@);
}

/// A command that went into its channel is confirmed with its id, and nothing
/// changes. Where it did not, the reason is told, and the client is removed, and
/// nothing else.
pub proof fn law_delivery(
    state: &mut ServerState,
    id: &str,
    command_id: &str,
    outcome: Result<(), String>,
    res: String,
)
    requires
        old(state).wf(),
        call_ensures(finish_delivery, (state, id, command_id, outcome), res),
    ensures
        outcome is Ok ==> {
            &&& res@ == "命令已发送 (ID: "@ + command_id@ + ")\n"@
            &&& *final(state) == *old(state)
        },
        outcome matches Err(error) ==> {
            &&& res@ == "发送命令失败: "@ + error@ + "\n"@
            &&& final(state).roster() == old(state).roster().filter(has_other_id(id@))
            &&& final(state).tokens() == old(state).tokens()
            &&& final(state).results() == old(state).results()
        },
{
    lemma_is_removed(old(state).roster(), id@);
}

} // verus!
