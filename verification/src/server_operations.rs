//! What the calls of a server give for what they are given, and how they show in
//! the calls that come after them.

use crate::channel::{capacity, connected};
use crate::laws::{around, holds};
use crate::messages::{
    Code, CommandReply, CommandRequest, ConnectRequest, Status, StatusReport, StatusResponse,
};
use crate::server::{
    by_id, distinct_ids, introduced, lemma_place, listed, own_channel, place, serves,
    token_whitelist, with_client, without_client, ClientState, CommandResultStore, ServerState,
};
use crate::text::{decimal, integer_text, split, texts};
use tokio::sync::mpsc;
use vstd::prelude::*;

verus! {

/// The tokens are the fields of what is configured, between its commas. Where
/// nothing is configured there is one token.
pub proof fn law_configured_tokens(
    configured: Option<String>,
    list: &str,
    parts: Vec<String>,
    res: Vec<String>,
)
    requires
        call_ensures(token_whitelist, (configured,), res),
        configured matches Some(text) ==> list@ == text@,
        configured is None ==> list@ == "valid_token_123"@,
        call_ensures(split, (list, ','), parts),
    ensures
        res@.len() == parts@.len(),
        forall|i: int| 0 <= i < res@.len() ==> #[trigger] res@[i]@ == parts@[i]@,
{
    assert(texts(res@).len() == res@.len());
    assert(texts(parts@).len() == parts@.len());
    assert forall|i: int| 0 <= i < res@.len() implies #[trigger] res@[i]@ == parts@[i]@ by {
        assert(texts(res@)[i] == res@[i]@);
        assert(texts(parts@)[i] == parts@[i]@);
    }
}

/// A token is let in exactly where it is one of those that the server was made
/// with.
pub proof fn law_valid_tokens(tokens: Vec<String>, state: ServerState, token: &str, res: bool)
    requires
        call_ensures(ServerState::new, (tokens,), state),
        call_ensures(ServerState::is_token_valid, (&state, token), res),
    ensures
        res <==> exists|i: int| 0 <= i < tokens@.len() && #[trigger] tokens@[i]@ == token@,
{
    let known = texts(tokens@);
    if res {
        let i = choose|i: int| 0 <= i < known.len() && known[i] == token@;
        assert(tokens@[i]@ == token@);
    }
    if exists|i: int| 0 <= i < tokens@.len() && #[trigger] tokens@[i]@ == token@ {
        let i = choose|i: int| 0 <= i < tokens@.len() && #[trigger] tokens@[i]@ == token@;
        assert(known[i] == token@);
    }
}

/// Whether a token is let in does not depend on anything but the tokens of the
/// server.
pub proof fn law_validity_of_a_token(
    a: ServerState,
    b: ServerState,
    token: &str,
    res_a: bool,
    res_b: bool,
)
    requires
        call_ensures(ServerState::is_token_valid, (&a, token), res_a),
        call_ensures(ServerState::is_token_valid, (&b, token), res_b),
        a.tokens() == b.tokens(),
    ensures
        res_a == res_b,
{
}

/// A new server has no clients and no replies.
pub proof fn law_new_server(
    tokens: Vec<String>,
    state: ServerState,
    clients: Vec<ClientState>,
    id: &str,
    found: Option<ClientState>,
    store: &CommandResultStore,
    reply: Option<&CommandReply>,
)
    requires
        call_ensures(ServerState::new, (tokens,), state),
        call_ensures(ServerState::get_all_clients, (&state,), clients),
        call_ensures(ServerState::get_client, (&state, id), found),
        call_ensures(ServerState::command_results, (&state,), store),
        call_ensures(CommandResultStore::get_result, (store, id), reply),
    ensures
        clients@.len() == 0,
        found is None,
        reply is None,
{
}

/// A client is found by its id exactly where it is one of all clients, and it is
/// found as it stands there. No two of all clients have the same id.
pub proof fn law_found_among_all(
    state: ServerState,
    clients: Vec<ClientState>,
    id: &str,
    found: Option<ClientState>,
)
    requires
        call_ensures(ServerState::get_all_clients, (&state,), clients),
        call_ensures(ServerState::get_client, (&state, id), found),
    ensures
        forall|i: int, j: int|
            0 <= i < j < clients@.len() ==> (#[trigger] clients@[i]).client_id@ != (
            #[trigger] clients@[j]).client_id@,
        found is Some <==> exists|i: int|
            0 <= i < clients@.len() && (#[trigger] clients@[i]).client_id@ == id@,
        forall|i: int|
            0 <= i < clients@.len() && (#[trigger] clients@[i]).client_id@ == id@ ==> found
                == Some(clients@[i]),
{
    assert forall|i: int|
        0 <= i < clients@.len() && (#[trigger] clients@[i]).client_id@ == id@ implies found
        == Some(clients@[i]) by {
        lemma_place(clients@, i);
    }
}

/// The states in which calls can be made are those in which no two clients have
/// the same id.
pub proof fn law_well_formed(state: ServerState)
    ensures
        state.wf() <==> forall|i: int, j: int|
            0 <= i < state.roster().len() && 0 <= j < state.roster().len() && i != j ==> (
            #[trigger] state.roster()[i]).client_id@ != (#[trigger] state.roster()[j]).client_id@,
{
    if state.wf() {
        assert forall|i: int, j: int|
            0 <= i < state.roster().len() && 0 <= j < state.roster().len() && i != j implies (
        #[trigger] state.roster()[i]).client_id@ != (#[trigger] state.roster()[j]).client_id@ by {
            if j < i {
                assert(state.roster()[j].client_id@ != state.roster()[i].client_id@);
            }
        }
    }
}

/// One list of clients is the other with a client added: every client with
/// another id stands where it stood, the client stands in the place of the one
/// with its id, and at the end where there was none.
pub open spec fn is_added(
    before: Seq<ClientState>,
    after: Seq<ClientState>,
    client: ClientState,
) -> bool {
    &&& forall|i: int|
        0 <= i < before.len() ==> i < after.len() && #[trigger] after[i] == if before[i].client_id@
            == client.client_id@ {
            client
        } else {
            before[i]
        }
    &&& (exists|i: int|
        0 <= i < before.len() && (#[trigger] before[i]).client_id@ == client.client_id@)
        ==> after.len() == before.len()
    &&& (forall|i: int|
        0 <= i < before.len() ==> (#[trigger] before[i]).client_id@ != client.client_id@)
        ==> after.len() == before.len() + 1 && after.last() == client
}

proof fn lemma_is_added(before: Seq<ClientState>, client: ClientState)
    requires
        distinct_ids(before),
    ensures
        is_added(before, with_client(before, client), client),
{
    let after = with_client(before, client);
    assert forall|i: int| 0 <= i < before.len() implies i < after.len() && #[trigger] after[i]
        == if before[i].client_id@ == client.client_id@ {
        client
    } else {
        before[i]
    } by {
        if before[i].client_id@ == client.client_id@ {
            lemma_place(before, i);
        } else if listed(before, client.client_id@) {
            let p = place(before, client.client_id@);
            assert(before[p].client_id@ == client.client_id@);
        }
    }
}

/// To update a client puts it in the place of the one with its id, or at the end,
/// and leaves all else as it is.
pub proof fn law_update_client(
    state: &mut ServerState,
    client: ClientState,
    before: Vec<ClientState>,
    after: Vec<ClientState>,
)
    requires
        call_ensures(ServerState::get_all_clients, (&*old(state),), before),
        call_ensures(ServerState::update_client, (state, client), ()),
        call_ensures(ServerState::get_all_clients, (&*final(state),), after),
    ensures
        is_added(before@, after@, client),
        final(state).tokens() == old(state).tokens(),
        final(state).results() == old(state).results(),
{
    lemma_is_added(before@, client);
}

/// Tells the clients with another id.
pub open spec fn has_other_id(id: Seq<char>) -> spec_fn(ClientState) -> bool {
    |client: ClientState| client.client_id@ != id
}

pub proof fn lemma_is_removed(before: Seq<ClientState>, id: Seq<char>)
    requires
        distinct_ids(before),
    ensures
        without_client(before, id) == before.filter(has_other_id(id)),
    decreases before.len(),
{
    reveal(Seq::filter);
    if before.len() > 0 {
        let front = before.drop_last();
        let last = before.last();
        assert forall|i: int, j: int| 0 <= i < j < front.len() implies (
        #[trigger] front[i]).client_id@ != (#[trigger] front[j]).client_id@ by {
            assert(before[i].client_id@ != before[j].client_id@);
        }
        lemma_is_removed(front, id);
        if last.client_id@ == id {
            lemma_place(before, before.len() - 1);
            assert(!listed(front, id)) by {
                if listed(front, id) {
                    let i = place(front, id);
                    assert(front[i].client_id@ == id);
                    assert(before[i].client_id@ != before[before.len() - 1].client_id@);
                }
            }
            assert(without_client(before, id) =~= front);
        } else if listed(before, id) {
            let p = place(before, id);
            assert(before[p].client_id@ == id);
            assert(p < front.len());
            assert(front[p].client_id@ == id);
            lemma_place(before, p);
            lemma_place(front, p);
            assert(without_client(before, id) =~= without_client(front, id).push(last));
        } else {
            assert(!listed(front, id)) by {
                if listed(front, id) {
                    let i = place(front, id);
                    assert(front[i].client_id@ == id);
                    assert(before[i].client_id@ == id);
                }
            }
            assert(front.push(last) =~= before);
        }
    } else {
        assert(before.filter(has_other_id(id)) =~= before);
    }
}

/// To remove a client leaves all clients with other ids, in their order, and all
/// else as it is.
pub proof fn law_remove_client(
    state: &mut ServerState,
    id: &str,
    before: Vec<ClientState>,
    after: Vec<ClientState>,
)
    requires
        call_ensures(ServerState::get_all_clients, (&*old(state),), before),
        call_ensures(ServerState::remove_client, (state, id), ()),
        call_ensures(ServerState::get_all_clients, (&*final(state),), after),
    ensures
        after@ == before@.filter(has_other_id(id@)),
        final(state).tokens() == old(state).tokens(),
        final(state).results() == old(state).results(),
{
    lemma_is_removed(before@, id@);
}

/// An agent is let in exactly where its token is valid. One that is not let in is
/// told so, and nothing changes.
pub proof fn law_connect_needs_a_token(
    state: &mut ServerState,
    request: ConnectRequest,
    token: &str,
    valid: bool,
    res: Result<mpsc::Receiver<CommandRequest>, Status>,
)
    requires
        token@ == request.token@,
        call_ensures(ServerState::is_token_valid, (&*old(state), token), valid),
        call_ensures(ServerState::connect, (state, request), res),
    ensures
        res is Ok <==> valid,
        res matches Err(status) ==> {
            &&& status.code == Code::Unauthenticated
            &&& status.message@ == "Invalid token"@
            &&& *final(state) == *old(state)
        },
{
}

/// A client that has just connected is found under the id that it gave, with the
/// hostname, the system and the version that it gave, and without a status.
pub proof fn law_connected_client_is_found(
    state: &mut ServerState,
    request: ConnectRequest,
    res: Result<mpsc::Receiver<CommandRequest>, Status>,
    id: &str,
    found: Option<ClientState>,
)
    requires
        call_ensures(ServerState::connect, (state, request), res),
        res is Ok,
        id@ == request.client_id@,
        call_ensures(ServerState::get_client, (&*final(state), id), found),
    ensures
        found matches Some(client) && {
            &&& client.client_id@ == request.client_id@
            &&& client.hostname@ == request.hostname@
            &&& client.os@ == request.os@
            &&& client.version@ == request.version@
            &&& client.last_status is None
        },
{
}

/// What a client said of itself when it connected is what is kept of it.
pub proof fn law_introduced(client: ClientState, request: ConnectRequest)
    requires
        introduced(client, request),
    ensures
        client.client_id@ == request.client_id@,
        client.hostname@ == request.hostname@,
        client.os@ == request.os@,
        client.version@ == request.version@,
        client.last_status is None,
{
}

/// The commands for a client that has just connected come out at the stream that
/// its agent was given, and nothing else does. Nobody had the channel before. It
/// holds a hundred commands.
pub proof fn law_connected_client_has_its_stream(
    state: &mut ServerState,
    request: ConnectRequest,
    stream: mpsc::Receiver<CommandRequest>,
    before: Vec<ClientState>,
    id: &str,
    found: Option<ClientState>,
)
    requires
        call_ensures(ServerState::get_all_clients, (&*old(state),), before),
        call_ensures(
            ServerState::connect,
            (state, request),
            Ok::<mpsc::Receiver<CommandRequest>, Status>(stream),
        ),
        id@ == request.client_id@,
        call_ensures(ServerState::get_client, (&*final(state), id), found),
    ensures
        found matches Some(client) && client.command_sender matches Some(sender) && {
            &&& connected(sender, stream)
            &&& forall|other: mpsc::Receiver<CommandRequest>| #[trigger]
                connected(sender, other) ==> other == stream
            &&& forall|other: mpsc::Sender<CommandRequest>| #[trigger]
                connected(other, stream) ==> other == sender
            &&& forall|i: int|
                0 <= i < before@.len() ==> (#[trigger] before@[i]).command_sender != Some(sender)
            &&& capacity(sender) == 100
        },
{
    assert forall|i: int| 0 <= i < before@.len() implies (#[trigger] before@[i]).command_sender
        != found->0.command_sender by {
        lemma_place(before@, i);
        assert(by_id(before@).contains_key(before@[i].client_id@));
    }
}

/// A channel of its own is connected to its stream alone, and no client has it.
pub proof fn law_own_channel(
    roster: Seq<ClientState>,
    sender: mpsc::Sender<CommandRequest>,
    stream: mpsc::Receiver<CommandRequest>,
)
    requires
        distinct_ids(roster),
        own_channel(roster, sender, stream),
    ensures
        connected(sender, stream),
        forall|other: mpsc::Receiver<CommandRequest>| #[trigger]
            connected(sender, other) ==> other == stream,
        forall|other: mpsc::Sender<CommandRequest>| #[trigger]
            connected(other, stream) ==> other == sender,
        forall|i: int|
            0 <= i < roster.len() ==> (#[trigger] roster[i]).command_sender != Some(sender),
{
    assert forall|i: int| 0 <= i < roster.len() implies (#[trigger] roster[i]).command_sender
        != Some(sender) by {
        lemma_place(roster, i);
        assert(by_id(roster).contains_key(roster[i].client_id@));
    }
}

/// To let an agent in puts its client in the place of the one with its id, or at
/// the end, and leaves all else as it is.
pub proof fn law_connect_spares_the_rest(
    state: &mut ServerState,
    request: ConnectRequest,
    res: Result<mpsc::Receiver<CommandRequest>, Status>,
    before: Vec<ClientState>,
    after: Vec<ClientState>,
    id: &str,
    found: Option<ClientState>,
)
    requires
        call_ensures(ServerState::get_all_clients, (&*old(state),), before),
        call_ensures(ServerState::connect, (state, request), res),
        res is Ok,
        call_ensures(ServerState::get_all_clients, (&*final(state),), after),
        id@ == request.client_id@,
        call_ensures(ServerState::get_client, (&*final(state), id), found),
    ensures
        found matches Some(client) && is_added(before@, after@, client),
        final(state).tokens() == old(state).tokens(),
        final(state).results() == old(state).results(),
{
    lemma_is_added(before@, found->0);
}

/// When a connection closes, the client whose channel it has is gone. All clients
/// with other ids stay, in their order, and where the client under the id has
/// another channel, or there is none, nothing changes.
pub proof fn law_connection_closed(
    state: &mut ServerState,
    id: &str,
    channel: &mpsc::Sender<CommandRequest>,
    found: Option<ClientState>,
    before: Vec<ClientState>,
    after: Vec<ClientState>,
)
    requires
        call_ensures(ServerState::get_client, (&*old(state), id), found),
        call_ensures(ServerState::get_all_clients, (&*old(state),), before),
        call_ensures(ServerState::connection_closed, (state, id, channel), ()),
        call_ensures(ServerState::get_all_clients, (&*final(state),), after),
    ensures
        (found matches Some(client) && client.command_sender == Some(*channel)) ==> after@
            == before@.filter(has_other_id(id@)),
        !(found matches Some(client) && client.command_sender == Some(*channel)) ==> *final(state)
            == *old(state),
        final(state).tokens() == old(state).tokens(),
        final(state).results() == old(state).results(),
{
    lemma_is_removed(before@, id@);
}

/// A channel serves the client under an id exactly where a client of the list has
/// the id and the channel.
pub proof fn law_serves(
    roster: Seq<ClientState>,
    client_id: Seq<char>,
    channel: mpsc::Sender<CommandRequest>,
)
    requires
        distinct_ids(roster),
    ensures
        serves(roster, client_id, channel) <==> exists|i: int|
            0 <= i < roster.len() && (#[trigger] roster[i]).client_id@ == client_id
                && roster[i].command_sender == Some(channel),
{
    if exists|i: int|
        0 <= i < roster.len() && (#[trigger] roster[i]).client_id@ == client_id
            && roster[i].command_sender == Some(channel) {
        let i = choose|i: int|
            0 <= i < roster.len() && (#[trigger] roster[i]).client_id@ == client_id
                && roster[i].command_sender == Some(channel);
        lemma_place(roster, i);
    }
    if serves(roster, client_id, channel) {
        let p = place(roster, client_id);
        assert(roster[p].client_id@ == client_id);
    }
}

/// The status of a client that is connected is kept with it, and nothing else of
/// any client changes. The report of any other is dropped. Both are answered in
/// the same way.
pub proof fn law_report_status(
    state: &mut ServerState,
    report: StatusReport,
    res: StatusResponse,
    before: Vec<ClientState>,
    after: Vec<ClientState>,
)
    requires
        call_ensures(ServerState::get_all_clients, (&*old(state),), before),
        call_ensures(ServerState::report_status, (state, report), res),
        call_ensures(ServerState::get_all_clients, (&*final(state),), after),
    ensures
        res.success,
        res.message@ == "Status received"@,
        after@.len() == before@.len(),
        forall|i: int|
            0 <= i < before@.len() ==> {
                &&& (#[trigger] after@[i]).client_id@ == before@[i].client_id@
                &&& after@[i].hostname@ == before@[i].hostname@
                &&& after@[i].os@ == before@[i].os@
                &&& after@[i].version@ == before@[i].version@
                &&& after@[i].command_sender == before@[i].command_sender
                &&& after@[i].last_status == if before@[i].client_id@ == report.client_id@ {
                    Some(report)
                } else {
                    before@[i].last_status
                }
            },
        final(state).tokens() == old(state).tokens(),
        final(state).results() == old(state).results(),
{
    let id = report.client_id@;
    if by_id(before@).contains_key(id) {
        let p = place(before@, id);
        assert(before@[p].client_id@ == id);
        lemma_place(before@, p);
        let client = ClientState { last_status: Some(report), ..before@[p] };
        lemma_is_added(before@, client);
        assert forall|i: int| 0 <= i < before@.len() && before@[i].client_id@ == id implies i
            == p by {
            lemma_place(before@, i);
        }
    } else {
        assert forall|i: int| 0 <= i < before@.len() implies (
        #[trigger] before@[i]).client_id@ != id by {
            if before@[i].client_id@ == id {
                assert(listed(before@, id));
            }
        }
    }
}

/// A reply that comes in is found under its command's id from then on, and every
/// other reply is found as before. The clients and the tokens stay as they are.
pub proof fn law_reply_is_kept(
    state: &mut ServerState,
    reply: CommandReply,
    text: String,
    store: &CommandResultStore,
    id: &str,
    found: Option<&CommandReply>,
    earlier_store: &CommandResultStore,
    earlier: Option<&CommandReply>,
)
    requires
        call_ensures(ServerState::command_results, (&*old(state),), earlier_store),
        call_ensures(CommandResultStore::get_result, (earlier_store, id), earlier),
        call_ensures(ServerState::command_response, (state, reply), text),
        call_ensures(ServerState::command_results, (&*final(state),), store),
        call_ensures(CommandResultStore::get_result, (store, id), found),
    ensures
        id@ == reply.command_id@ ==> found == Some(&reply),
        id@ != reply.command_id@ ==> found == earlier,
        final(state).roster() == old(state).roster(),
        final(state).tokens() == old(state).tokens(),
{
}

/// A result that is stored is found under its id from then on, and every other
/// result is found as before.
pub proof fn law_result_is_stored(
    store: &mut CommandResultStore,
    command_id: String,
    result: CommandReply,
    id: &str,
    earlier: Option<&CommandReply>,
    found: Option<&CommandReply>,
)
    requires
        call_ensures(CommandResultStore::get_result, (&*old(store), id), earlier),
        call_ensures(CommandResultStore::store_result, (store, command_id, result), ()),
        call_ensures(CommandResultStore::get_result, (&*final(store), id), found),
    ensures
        id@ == command_id@ ==> found == Some(&result),
        id@ != command_id@ ==> found == earlier,
{
}

/// The same holds of a result that the server stores. The clients and the tokens
/// stay as they are.
pub proof fn law_server_stores_results(
    state: &mut ServerState,
    command_id: String,
    result: CommandReply,
    store: &CommandResultStore,
    id: &str,
    found: Option<&CommandReply>,
    earlier_store: &CommandResultStore,
    earlier: Option<&CommandReply>,
)
    requires
        call_ensures(ServerState::command_results, (&*old(state),), earlier_store),
        call_ensures(CommandResultStore::get_result, (earlier_store, id), earlier),
        call_ensures(ServerState::store_command_result, (state, command_id, result), ()),
        call_ensures(ServerState::command_results, (&*final(state),), store),
        call_ensures(CommandResultStore::get_result, (store, id), found),
    ensures
        id@ == command_id@ ==> found == Some(&result),
        id@ != command_id@ ==> found == earlier,
        final(state).roster() == old(state).roster(),
        final(state).tokens() == old(state).tokens(),
{
}

/// What is printed of a reply holds its standard output under its heading wherever
/// there is some, and its error output under its heading wherever there is some,
/// each whatever the other is.
pub proof fn law_printed_reply_holds_the_output(
    state: &mut ServerState,
    reply: CommandReply,
    text: String,
)
    requires
        call_ensures(ServerState::command_response, (state, reply), text),
    ensures
        reply.stdout@.len() > 0 ==> holds(text@, "标准输出:\n"@ + reply.stdout@ + "\n"@),
        reply.stderr@.len() > 0 ==> holds(text@, "错误输出:\n"@ + reply.stderr@ + "\n"@),
{
    reveal_strlit("");
    let head = "\n命令执行结果 (ID: "@ + reply.command_id@ + ")\n退出码: "@ + decimal(
        reply.exit_code as int,
    ) + "\n"@;
    let rule = "----------------------------------------\n$ "@;
    let out = "标准输出:\n"@ + reply.stdout@ + "\n"@;
    let err = "错误输出:\n"@ + reply.stderr@ + "\n"@;
    if reply.stdout@.len() > 0 {
        let rest = if reply.stderr@.len() > 0 {
            err + rule
        } else {
            rule
        };
        assert(text@ =~= around(head, out, rest));
    }
    if reply.stderr@.len() > 0 {
        let before = if reply.stdout@.len() > 0 {
            head + out
        } else {
            head
        };
        assert(text@ =~= around(before, err, rule));
    }
}

/// What is printed of a reply starts with the command's id and its exit code and
/// ends with a rule and a prompt. Between them stand the standard output and the
/// error output, in this order, each under its heading, and nothing where there is
/// none.
pub proof fn law_printed_reply(
    state: &mut ServerState,
    reply: CommandReply,
    code: String,
    text: String,
)
    requires
        call_ensures(integer_text, (reply.exit_code as i64,), code),
        call_ensures(ServerState::command_response, (state, reply), text),
    ensures
        ({
            let head = "\n命令执行结果 (ID: "@ + reply.command_id@ + ")\n退出码: "@ + code@ + "\n"@;
            let out = "标准输出:\n"@ + reply.stdout@ + "\n"@;
            let err = "错误输出:\n"@ + reply.stderr@ + "\n"@;
            let rule = "----------------------------------------\n$ "@;
            let no_out = reply.stdout@.len() == 0;
            let no_err = reply.stderr@.len() == 0;
            &&& no_out && no_err ==> text@ == head + rule
            &&& !no_out && no_err ==> text@ == head + out + rule
            &&& no_out && !no_err ==> text@ == head + err + rule
            &&& !no_out && !no_err ==> text@ == head + out + err + rule
        }),
{
    reveal_strlit("");
    let head = "\n命令执行结果 (ID: "@ + reply.command_id@ + ")\n退出码: "@ + code@ + "\n"@;
    let out = "标准输出:\n"@ + reply.stdout@ + "\n"@;
    assert(head + ""@ =~= head);
    assert(head + out + ""@ =~= head + out);
}

} // verus!
