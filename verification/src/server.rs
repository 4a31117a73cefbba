//! What the server knows: the agents that are connected, the tokens that it lets
//! in, and the replies to its commands.

use crate::channel::{capacity, command_channel, connected};
use crate::messages::{
    Code, CommandReply, CommandRequest, ConnectRequest, Status, StatusReport, StatusResponse,
};
use crate::text::{decimal, fields, integer_text, same_text, split, texts};
use tokio::sync::mpsc;
use vstd::hash_map::StringHashMap;
use vstd::prelude::*;

verus! {

/// How many commands wait for an agent before the server waits for it.
pub const CHANNEL_CAPACITY: usize = 100;

/// An agent that is connected.
#[derive(Debug)]
pub struct ClientState {
    pub client_id: String,
    pub hostname: String,
    pub os: String,
    pub version: String,
    pub last_status: Option<StatusReport>,
    pub command_sender: Option<mpsc::Sender<CommandRequest>>,
}

impl Clone for ClientState {
    fn clone(&self) -> (res: Self)
        ensures
            res == *self,
    {
        ClientState {
            client_id: self.client_id.clone(),
            hostname: self.hostname.clone(),
            os: self.os.clone(),
            version: self.version.clone(),
            last_status: self.last_status.clone(),
            command_sender: self.command_sender.clone(),
        }
    }
}

/// The replies to commands, by the command's id.
pub struct CommandResultStore {
    results: StringHashMap<CommandReply>,
}

impl View for CommandResultStore {
    type V = Map<Seq<char>, CommandReply>;

    closed spec fn view(&self) -> Map<Seq<char>, CommandReply> {
        self.results@
    }
}

impl CommandResultStore {
    /// A store without replies.
    pub fn new() -> (res: Self)
        ensures
            res@ == Map::<Seq<char>, CommandReply>::empty(),
    {
        CommandResultStore { results: StringHashMap::new() }
    }

    /// Keeps a reply, in place of an earlier one to the same command.
    pub fn store_result(&mut self, command_id: String, result: CommandReply)
        ensures
            final(self)@ == old(self)@.insert(command_id@, result),
    {
        self.results.insert(command_id, result);
    }

    /// The reply to a command, if there is one.
    pub fn get_result(&self, command_id: &str) -> (res: Option<&CommandReply>)
        ensures
            res is Some <==> self@.contains_key(command_id@),
            res matches Some(reply) ==> *reply == self@[command_id@],
    {
        self.results.get(command_id)
    }
}

/// Whether some client of the list has the id.
pub open spec fn listed(clients: Seq<ClientState>, id: Seq<char>) -> bool {
    exists|i: int| 0 <= i < clients.len() && (#[trigger] clients[i]).client_id@ == id
}

/// Where the client with the id stands in the list.
pub open spec fn place(clients: Seq<ClientState>, id: Seq<char>) -> int {
    choose|i: int| 0 <= i < clients.len() && (#[trigger] clients[i]).client_id@ == id
}

/// No two clients of the list have the same id.
pub open spec fn distinct_ids(clients: Seq<ClientState>) -> bool {
    forall|i: int, j: int|
        0 <= i < j < clients.len() ==> (#[trigger] clients[i]).client_id@ != (
        #[trigger] clients[j]).client_id@
}

/// The clients of a list, by their ids.
pub open spec fn by_id(clients: Seq<ClientState>) -> Map<Seq<char>, ClientState> {
    Map::new(|id: Seq<char>| listed(clients, id), |id: Seq<char>| clients[place(clients, id)])
}

/// The list with the client in the place of the one with its id, or at the end.
pub open spec fn with_client(clients: Seq<ClientState>, client: ClientState) -> Seq<ClientState> {
    if listed(clients, client.client_id@) {
        clients.update(place(clients, client.client_id@), client)
    } else {
        clients.push(client)
    }
}

/// The list without the client that has the id.
pub open spec fn without_client(clients: Seq<ClientState>, id: Seq<char>) -> Seq<ClientState> {
    if listed(clients, id) {
        clients.remove(place(clients, id))
    } else {
        clients
    }
}

/// A client of the list is found by its id.
pub proof fn lemma_place(clients: Seq<ClientState>, i: int)
    requires
        distinct_ids(clients),
        0 <= i < clients.len(),
    ensures
        listed(clients, clients[i].client_id@),
        place(clients, clients[i].client_id@) == i,
        by_id(clients).contains_key(clients[i].client_id@),
        by_id(clients)[clients[i].client_id@] == clients[i],
{
    let id = clients[i].client_id@;
    assert(listed(clients, id));
    let j = place(clients, id);
    assert(0 <= j < clients.len() && clients[j].client_id@ == id);
    if i < j {
        assert(clients[i].client_id@ != clients[j].client_id@);
    } else if j < i {
        assert(clients[j].client_id@ != clients[i].client_id@);
    }
}

/// To add a client to the list, or to replace it there, is an insertion by its
/// id. No id comes to stand twice.
pub proof fn lemma_with_client(clients: Seq<ClientState>, client: ClientState)
    requires
        distinct_ids(clients),
    ensures
        distinct_ids(with_client(clients, client)),
        by_id(with_client(clients, client)) == by_id(clients).insert(client.client_id@, client),
{
    let id = client.client_id@;
    let after = with_client(clients, client);
    if listed(clients, id) {
        let p = place(clients, id);
        assert(0 <= p < clients.len() && clients[p].client_id@ == id);
        assert forall|i: int, j: int| 0 <= i < j < after.len() implies (
        #[trigger] after[i]).client_id@ != (#[trigger] after[j]).client_id@ by {
            assert(clients[i].client_id@ != clients[j].client_id@);
        }
    } else {
        assert forall|i: int, j: int| 0 <= i < j < after.len() implies (
        #[trigger] after[i]).client_id@ != (#[trigger] after[j]).client_id@ by {
            if j < clients.len() {
                assert(clients[i].client_id@ != clients[j].client_id@);
            } else {
                assert(clients[i].client_id@ != id);
            }
        }
    }
    let place_of_client = if listed(clients, id) {
        place(clients, id)
    } else {
        clients.len() as int
    };
    assert(after[place_of_client] == client);
    lemma_place(after, place_of_client);
    assert forall|k: Seq<char>| #[trigger]
        by_id(after).contains_key(k) == by_id(clients).insert(id, client).contains_key(k) && (
        by_id(after).contains_key(k) ==> by_id(after)[k] == by_id(clients).insert(
            id,
            client,
        )[k]) by {
        if k != id {
            if listed(after, k) {
                let i = place(after, k);
                assert(0 <= i < after.len() && after[i].client_id@ == k);
                assert(clients[i] == after[i]);
                lemma_place(after, i);
                lemma_place(clients, i);
            }
            if listed(clients, k) {
                let i = place(clients, k);
                assert(0 <= i < clients.len() && clients[i].client_id@ == k);
                assert(after[i] == clients[i]);
            }
        }
    }
    assert(by_id(after) =~= by_id(clients).insert(id, client));
}

/// To take a client off the list is a removal by its id. No id comes to stand
/// twice.
pub proof fn lemma_without_client(clients: Seq<ClientState>, id: Seq<char>)
    requires
        distinct_ids(clients),
    ensures
        distinct_ids(without_client(clients, id)),
        by_id(without_client(clients, id)) == by_id(clients).remove(id),
{
    let after = without_client(clients, id);
    if listed(clients, id) {
        let p = place(clients, id);
        assert(0 <= p < clients.len() && clients[p].client_id@ == id);
        assert forall|i: int| 0 <= i < after.len() implies #[trigger] after[i] == clients[if i
            < p {
            i
        } else {
            i + 1
        }] by {}
        assert forall|i: int, j: int| 0 <= i < j < after.len() implies (
        #[trigger] after[i]).client_id@ != (#[trigger] after[j]).client_id@ by {
            let a = if i < p {
                i
            } else {
                i + 1
            };
            let b = if j < p {
                j
            } else {
                j + 1
            };
            assert(clients[a].client_id@ != clients[b].client_id@);
        }
        assert forall|k: Seq<char>| #[trigger]
            by_id(after).contains_key(k) == by_id(clients).remove(id).contains_key(k) && (by_id(
                after,
            ).contains_key(k) ==> by_id(after)[k] == by_id(clients).remove(id)[k]) by {
            if listed(after, k) {
                let i = place(after, k);
                assert(0 <= i < after.len() && after[i].client_id@ == k);
                let a = if i < p {
                    i
                } else {
                    i + 1
                };
                assert(after[i] == clients[a]);
                lemma_place(after, i);
                lemma_place(clients, a);
                lemma_place(clients, p);
            }
            if k != id && listed(clients, k) {
                let a = place(clients, k);
                assert(0 <= a < clients.len() && clients[a].client_id@ == k);
                let i = if a < p {
                    a
                } else {
                    a - 1
                };
                assert(after[i] == clients[a]);
            }
        }
        assert(by_id(after) =~= by_id(clients).remove(id));
    } else {
        assert(by_id(clients) =~= by_id(clients).remove(id));
    }
}

/// The tokens that the server lets in where none are configured.
pub open spec fn default_tokens() -> Seq<char> {
    "valid_token_123"@
}

/// Reads the list of tokens that the server lets in: they are separated by
/// commas, and stand as they are between them.
pub fn token_whitelist(configured: Option<String>) -> (res: Vec<String>)
    ensures
        texts(res@) == fields(
            match configured {
                Some(list) => list@,
                None => default_tokens(),
            },
            ',',
        ),
{
    match configured {
        Some(list) => split(list.as_str(), ','),
        None => split("valid_token_123", ','),
    }
}

/// What is printed of a reply to a command.
pub open spec fn reply_text(reply: CommandReply) -> Seq<char> {
    let head = "\n命令执行结果 (ID: "@ + reply.command_id@ + ")\n退出码: "@ + decimal(
        reply.exit_code as int,
    ) + "\n"@;
    let stdout = if reply.stdout@.len() > 0 {
        "标准输出:\n"@ + reply.stdout@ + "\n"@
    } else {
        ""@
    };
    let stderr = if reply.stderr@.len() > 0 {
        "错误输出:\n"@ + reply.stderr@ + "\n"@
    } else {
        ""@
    };
    head + stdout + stderr + "----------------------------------------\n$ "@
}

fn format_reply(reply: &CommandReply) -> (res: String)
    ensures
        res@ == reply_text(*reply),
{
    proof {
        reveal_strlit("");
    }
    let mut out = "\n命令执行结果 (ID: ".to_owned();
    out.append(reply.command_id.as_str());
    out.append(")\n退出码: ");
    out.append(integer_text(reply.exit_code as i64).as_str());
    out.append("\n");
    if !reply.stdout.as_str().is_empty() {
        out.append("标准输出:\n");
        out.append(reply.stdout.as_str());
        out.append("\n");
    }
    if !reply.stderr.as_str().is_empty() {
        out.append("错误输出:\n");
        out.append(reply.stderr.as_str());
        out.append("\n");
    }
    out.append("----------------------------------------\n$ ");
    assert(out@ =~= reply_text(*reply));
    out
}

/// A client as it is right after it connected with a request: what it said of
/// itself, without a status.
pub open spec fn introduced(client: ClientState, request: ConnectRequest) -> bool {
    &&& client.client_id == request.client_id
    &&& client.hostname == request.hostname
    &&& client.os == request.os
    &&& client.version == request.version
    &&& client.last_status is None
}

/// What happens to the clients of a server.
pub enum Event {
    /// An agent asks to be let in as a client.
    Connect { token: Seq<char>, client: ClientState },
    /// A status comes in.
    Report(StatusReport),
    /// A client is removed.
    Remove(Seq<char>),
    /// The connection with the channel, under which the client came, closes.
    Close { client_id: Seq<char>, channel: mpsc::Sender<CommandRequest> },
}

/// The channel is the one by which the client with the id gets its commands.
pub open spec fn serves(
    roster: Seq<ClientState>,
    client_id: Seq<char>,
    channel: mpsc::Sender<CommandRequest>,
) -> bool {
    by_id(roster).contains_key(client_id) && by_id(roster)[client_id].command_sender == Some(
        channel,
    )
}

/// The clients of a server with the given tokens after something happened.
pub open spec fn after_event(
    tokens: Seq<Seq<char>>,
    roster: Seq<ClientState>,
    event: Event,
) -> Seq<ClientState> {
    match event {
        Event::Connect { token, client } => if tokens.contains(token) {
            with_client(roster, client)
        } else {
            roster
        },
        Event::Report(report) => if by_id(roster).contains_key(report.client_id@) {
            with_client(
                roster,
                ClientState {
                    last_status: Some(report),
                    ..by_id(roster)[report.client_id@]
                },
            )
        } else {
            roster
        },
        Event::Remove(client_id) => without_client(roster, client_id),
        Event::Close { client_id, channel } => if serves(roster, client_id, channel) {
            without_client(roster, client_id)
        } else {
            roster
        },
    }
}

/// The two ends are those of a channel of its own: nothing else goes into the
/// stream, the sender feeds no other, and no client has it yet.
pub open spec fn own_channel(
    roster: Seq<ClientState>,
    sender: mpsc::Sender<CommandRequest>,
    stream: mpsc::Receiver<CommandRequest>,
) -> bool {
    &&& connected(sender, stream)
    &&& forall|other: mpsc::Receiver<CommandRequest>| #[trigger]
        connected(sender, other) ==> other == stream
    &&& forall|other: mpsc::Sender<CommandRequest>| #[trigger]
        connected(other, stream) ==> other == sender
    &&& forall|id: Seq<char>| #[trigger]
        by_id(roster).contains_key(id) ==> by_id(roster)[id].command_sender != Some(sender)
}

/// What the server knows.
pub struct ServerState {
    clients: Vec<ClientState>,
    token_whitelist: Vec<String>,
    command_results: CommandResultStore,
}

impl ServerState {
    /// The clients that are connected, in the order in which they are listed.
    pub closed spec fn roster(&self) -> Seq<ClientState> {
        self.clients@
    }

    /// The clients that are connected, by their ids.
    pub open spec fn clients(&self) -> Map<Seq<char>, ClientState> {
        by_id(self.roster())
    }

    /// The tokens that are let in.
    pub closed spec fn tokens(&self) -> Seq<Seq<char>> {
        texts(self.token_whitelist@)
    }

    /// The replies to commands, by the command's id.
    pub closed spec fn results(&self) -> Map<Seq<char>, CommandReply> {
        self.command_results@
    }

    /// No two clients have the same id.
    pub open spec fn wf(&self) -> bool {
        distinct_ids(self.roster())
    }

    /// A server without clients and replies, which lets in the given tokens.
    pub fn new(token_whitelist: Vec<String>) -> (res: Self)
        ensures
            res.wf(),
            res.roster() == Seq::<ClientState>::empty(),
            res.clients() == Map::<Seq<char>, ClientState>::empty(),
            res.tokens() == texts(token_whitelist@),
            res.results() == Map::<Seq<char>, CommandReply>::empty(),
    {
        let res = ServerState {
            clients: Vec::new(),
            token_whitelist,
            command_results: CommandResultStore::new(),
        };
        assert(res.clients() =~= Map::empty());
        res
    }

    /// Whether a token is let in.
    pub fn is_token_valid(&self, token: &str) -> (res: bool)
        ensures
            res == self.tokens().contains(token@),
    {
        let mut i: usize = 0;
        while i < self.token_whitelist.len()
            invariant
                i <= self.token_whitelist.len(),
                forall|j: int| 0 <= j < i ==> #[trigger] self.tokens()[j] != token@,
            decreases self.token_whitelist.len() - i,
        {
            if same_text(self.token_whitelist[i].as_str(), token) {
                assert(self.tokens()[i as int] == token@);
                return true;
            }
            assert(self.tokens()[i as int] != token@);
            i = i + 1;
        }
        false
    }

    fn position(&self, client_id: &str) -> (res: Option<usize>)
        requires
            self.wf(),
        ensures
            match res {
                Some(i) => listed(self.roster(), client_id@) && i < self.roster().len() && i
                    == place(self.roster(), client_id@) && self.roster()[i as int].client_id@
                    == client_id@,
                None => !listed(self.roster(), client_id@),
            },
    {
        let mut i: usize = 0;
        while i < self.clients.len()
            invariant
                self.wf(),
                i <= self.clients.len(),
                forall|j: int|
                    0 <= j < i ==> (#[trigger] self.clients@[j]).client_id@ != client_id@,
            decreases self.clients.len() - i,
        {
            if same_text(self.clients[i].client_id.as_str(), client_id) {
                proof {
                    lemma_place(self.clients@, i as int);
                }
                return Some(i);
            }
            i = i + 1;
        }
        None
    }

    /// Adds a client, or replaces the one with its id.
    pub fn update_client(&mut self, client_state: ClientState)
        requires
            old(self).wf(),
        ensures
            final(self).wf(),
            final(self).roster() == with_client(old(self).roster(), client_state),
            final(self).clients() == old(self).clients().insert(
                client_state.client_id@,
                client_state,
            ),
            final(self).tokens() == old(self).tokens(),
            final(self).results() == old(self).results(),
    {
        proof {
            lemma_with_client(self.clients@, client_state);
        }
        match self.position(client_state.client_id.as_str()) {
            Some(i) => {
                self.clients.set(i, client_state);
            },
            None => {
                self.clients.push(client_state);
            },
        }
    }

    /// Removes a client, if it is there.
    pub fn remove_client(&mut self, client_id: &str)
        requires
            old(self).wf(),
        ensures
            final(self).wf(),
            final(self).roster() == without_client(old(self).roster(), client_id@),
            final(self).roster() == after_event(
                old(self).tokens(),
                old(self).roster(),
                Event::Remove(client_id@),
            ),
            final(self).clients() == old(self).clients().remove(client_id@),
            final(self).tokens() == old(self).tokens(),
            final(self).results() == old(self).results(),
    {
        proof {
            lemma_without_client(self.clients@, client_id@);
        }
        match self.position(client_id) {
            Some(i) => {
                self.clients.remove(i);
            },
            None => {},
        }
    }

    /// The clients that are connected, each once.
    pub fn get_all_clients(&self) -> (res: Vec<ClientState>)
        requires
            self.wf(),
        ensures
            res@ == self.roster(),
            distinct_ids(res@),
            by_id(res@) == self.clients(),
    {
        let mut res: Vec<ClientState> = Vec::new();
        let mut i: usize = 0;
        while i < self.clients.len()
            invariant
                i <= self.clients.len(),
                res@ == self.clients@.take(i as int),
            decreases self.clients.len() - i,
        {
            res.push(self.clients[i].clone());
            i = i + 1;
        }
        assert(self.clients@.take(i as int) == self.clients@);
        res
    }

    /// The client with an id, if it is connected.
    pub fn get_client(&self, client_id: &str) -> (res: Option<ClientState>)
        requires
            self.wf(),
        ensures
            res == if self.clients().contains_key(client_id@) {
                Some(self.clients()[client_id@])
            } else {
                None
            },
    {
        match self.position(client_id) {
            Some(i) => Some(self.clients[i].clone()),
            None => None,
        }
    }

    /// Keeps the reply to a command.
    pub fn store_command_result(&mut self, command_id: String, result: CommandReply)
        requires
            old(self).wf(),
        ensures
            final(self).wf(),
            final(self).roster() == old(self).roster(),
            final(self).tokens() == old(self).tokens(),
            final(self).results() == old(self).results().insert(command_id@, result),
    {
        self.command_results.store_result(command_id, result);
    }

    /// Lets an agent in whose token is valid, and hands out the end of the channel
    /// at which its commands come out. The other end is kept with the client. The
    /// channel is a new one, even where the client had one before. An agent with
    /// another token is refused, and nothing changes.
    pub fn connect(&mut self, request: ConnectRequest) -> (res: Result<
        mpsc::Receiver<CommandRequest>,
        Status,
    >)
        requires
            old(self).wf(),
        ensures
            final(self).wf(),
            final(self).tokens() == old(self).tokens(),
            final(self).results() == old(self).results(),
            res is Ok <==> old(self).tokens().contains(request.token@),
            match res {
                Ok(receiver) => {
                    let client = final(self).clients()[request.client_id@];
                    &&& final(self).roster() == with_client(old(self).roster(), client)
                    &&& final(self).clients() == old(self).clients().insert(
                        request.client_id@,
                        client,
                    )
                    &&& introduced(client, request)
                    &&& client.command_sender matches Some(sender) && own_channel(
                        old(self).roster(),
                        sender,
                        receiver,
                    ) && capacity(sender) == CHANNEL_CAPACITY
                    &&& final(self).roster() == after_event(
                        old(self).tokens(),
                        old(self).roster(),
                        Event::Connect { token: request.token@, client },
                    )
                },
                Err(status) => {
                    &&& *final(self) == *old(self)
                    &&& forall|client: ClientState|
                        #![trigger after_event(
                            old(self).tokens(),
                            old(self).roster(),
                            Event::Connect { token: request.token@, client },
                        )]
                        final(self).roster() == after_event(
                            old(self).tokens(),
                            old(self).roster(),
                            Event::Connect { token: request.token@, client },
                        )
                    &&& status.code is Unauthenticated
                    &&& status.message@ == "Invalid token"@
                },
            },
    {
        if !self.is_token_valid(request.token.as_str()) {
            return Err(
                Status { code: Code::Unauthenticated, message: "Invalid token".to_owned() },
            );
        }
        let (command_sender, command_receiver) = command_channel(
            CHANNEL_CAPACITY,
            &self.clients,
        );
        assert forall|id: Seq<char>| #[trigger]
            by_id(self.roster()).contains_key(id) implies by_id(self.roster())[id].command_sender
            != Some(command_sender) by {
            let p = place(self.roster(), id);
            assert(0 <= p < self.clients@.len());
            assert(self.clients@[p].command_sender != Some(command_sender));
        }
        let client_state = ClientState {
            client_id: request.client_id,
            hostname: request.hostname,
            os: request.os,
            version: request.version,
            last_status: None,
            command_sender: Some(command_sender),
        };
        self.update_client(client_state);
        Ok(command_receiver)
    }

    /// Takes note that a connection has closed: the client that came with it is
    /// removed. The connection is known by its channel, so a client that has
    /// connected again since then stays.
    pub fn connection_closed(&mut self, client_id: &str, channel: &mpsc::Sender<CommandRequest>)
        requires
            old(self).wf(),
        ensures
            final(self).wf(),
            final(self).tokens() == old(self).tokens(),
            final(self).results() == old(self).results(),
            final(self).roster() == after_event(
                old(self).tokens(),
                old(self).roster(),
                Event::Close { client_id: client_id@, channel: *channel },
            ),
            if serves(old(self).roster(), client_id@, *channel) {
                &&& final(self).roster() == without_client(old(self).roster(), client_id@)
                &&& final(self).clients() == old(self).clients().remove(client_id@)
            } else {
                *final(self) == *old(self)
            },
    {
        match self.get_client(client_id) {
            Some(client) => match client.command_sender {
                Some(sender) => {
                    if sender.same_channel(channel) {
                        self.remove_client(client_id);
                    }
                },
                None => {},
            },
            None => {},
        }
    }

    /// Keeps the status of a client that is connected. The report of any other is
    /// answered in the same way and dropped.
    pub fn report_status(&mut self, status_report: StatusReport) -> (res: StatusResponse)
        requires
            old(self).wf(),
        ensures
            final(self).wf(),
            final(self).tokens() == old(self).tokens(),
            final(self).results() == old(self).results(),
            res.success,
            res.message@ == "Status received"@,
            final(self).roster() == after_event(
                old(self).tokens(),
                old(self).roster(),
                Event::Report(status_report),
            ),
            ({
                let id = status_report.client_id@;
                if old(self).clients().contains_key(id) {
                    let client = ClientState {
                        last_status: Some(status_report),
                        ..old(self).clients()[id]
                    };
                    &&& final(self).roster() == with_client(old(self).roster(), client)
                    &&& final(self).clients() == old(self).clients().insert(id, client)
                } else {
                    *final(self) == *old(self)
                }
            }),
    {
        match self.get_client(status_report.client_id.as_str()) {
            Some(found) => {
                let mut client = found;
                proof {
                    let p = place(self.roster(), status_report.client_id@);
                    assert(self.roster()[p].client_id@ == status_report.client_id@);
                }
                client.last_status = Some(status_report);
                self.update_client(client);
            },
            None => {},
        }
        StatusResponse { success: true, message: "Status received".to_owned() }
    }

    /// Keeps the reply to a command, and tells what to print of it.
    pub fn command_response(&mut self, command_reply: CommandReply) -> (res: String)
        requires
            old(self).wf(),
        ensures
            final(self).wf(),
            final(self).roster() == old(self).roster(),
            final(self).tokens() == old(self).tokens(),
            final(self).results() == old(self).results().insert(
                command_reply.command_id@,
                command_reply,
            ),
            res@ == reply_text(command_reply),
    {
        let text = format_reply(&command_reply);
        self.store_command_result(command_reply.command_id.clone(), command_reply);
        text
    }

    /// The replies to commands.
    pub fn command_results(&self) -> (res: &CommandResultStore)
        ensures
            res@ == self.results(),
    {
        &self.command_results
    }
}

} // verus!
