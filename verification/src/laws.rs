//! What holds of the agent and its server as a whole.

use crate::agent::{
    available_space, client_id_of, describes_disks, machine_address, sound_disks, total_received,
    total_space, total_transmitted, DiskSpace, Interface, Traffic,
};
use crate::channel::connected;
use crate::console::{
    command_id_at, console_step, listing, listing_head, sent_at, table_row, table_rows, Delivery,
    StepView,
};
use crate::messages::{CommandReply, CommandRequest, DiskInfo, StatusReport};
use crate::server::{
    after_event, by_id, distinct_ids, lemma_place, lemma_with_client, lemma_without_client, listed,
    own_channel, place, serves, with_client, without_client, ClientState, Event, ServerState,
};
use crate::text::{
    decimal, digit, digits, fields, is_white, padded, trim_end, trim_start, trimmed, words,
};
use tokio::sync::mpsc;
use vstd::prelude::*;

verus! {

/// What is left of a text without the white space around it neither starts nor
/// ends with white space.
pub proof fn law_trimmed_ends(s: Seq<char>)
    ensures
        trimmed(s).len() > 0 ==> !is_white(trimmed(s)[0]) && !is_white(trimmed(s).last()),
{
    lemma_trim_start_first(s);
    lemma_trim_end_last(trim_start(s));
}

proof fn lemma_trim_start_first(s: Seq<char>)
    ensures
        trim_start(s).len() > 0 ==> !is_white(trim_start(s)[0]),
    decreases s.len(),
{
    if s.len() > 0 && is_white(s[0]) {
        lemma_trim_start_first(s.drop_first());
    }
}

proof fn lemma_trim_end_last(s: Seq<char>)
    ensures
        trim_end(s).len() <= s.len(),
        trim_end(s) == s.take(trim_end(s).len() as int),
        trim_end(s).len() > 0 ==> !is_white(trim_end(s).last()),
    decreases s.len(),
{
    if s.len() > 0 && is_white(s.last()) {
        lemma_trim_end_last(s.drop_last());
        assert(s.drop_last().take(trim_end(s).len() as int) == s.take(trim_end(s).len() as int));
    } else {
        assert(s.take(s.len() as int) == s);
    }
}

/// To take the white space around a text away a second time changes nothing.
pub proof fn law_trimmed_twice(s: Seq<char>)
    ensures
        trimmed(trimmed(s)) == trimmed(s),
{
    law_trimmed_ends(s);
}

/// The white space around a text plays no part in its words.
pub proof fn law_words_of_trimmed(s: Seq<char>)
    ensures
        words(trimmed(s)) == words(s),
{
    lemma_words_trim_start(s);
    lemma_words_trim_end(trim_start(s));
}

proof fn lemma_words_trim_end(s: Seq<char>)
    ensures
        words(trim_end(s)) == words(s),
    decreases s.len(),
{
    if s.len() > 0 && is_white(s.last()) {
        lemma_words_trim_end(s.drop_last());
    }
}

proof fn lemma_words_trim_start(s: Seq<char>)
    ensures
        words(trim_start(s)) == words(s),
    decreases s.len(),
{
    if s.len() > 0 && is_white(s[0]) {
        lemma_words_trim_start(s.drop_first());
        lemma_words_leading_white(s);
    }
}

proof fn lemma_words_leading_white(s: Seq<char>)
    requires
        s.len() > 0,
        is_white(s[0]),
    ensures
        words(s.drop_first()) == words(s),
    decreases s.len(),
{
    let rest = s.drop_first();
    if rest.len() == 0 {
        assert(s.drop_last() == Seq::<char>::empty());
        assert(words(s.drop_last()) == Seq::<Seq<char>>::empty());
    } else {
        assert(s.drop_last().drop_first() == rest.drop_last());
        lemma_words_leading_white(s.drop_last());
        assert(s.last() == rest.last());
        if rest.len() > 1 {
            assert(rest[rest.len() - 2] == s[s.len() - 2]);
        }
    }
}

/// The characters of a text that are not white space.
pub open spec fn solid(s: Seq<char>) -> Seq<char>
    decreases s.len(),
{
    if s.len() == 0 {
        seq![]
    } else if is_white(s.last()) {
        solid(s.drop_last())
    } else {
        solid(s.drop_last()).push(s.last())
    }
}

/// Texts one after the other.
pub open spec fn joined(list: Seq<Seq<char>>) -> Seq<char>
    decreases list.len(),
{
    if list.len() == 0 {
        seq![]
    } else {
        joined(list.drop_last()) + list.last()
    }
}

/// A word has at least one character, and no white space in it.
pub open spec fn is_word(w: Seq<char>) -> bool {
    w.len() > 0 && forall|i: int| 0 <= i < w.len() ==> !is_white(#[trigger] w[i])
}

/// The words of a text are words, and together hold its characters other than
/// white space, in their order. There are words where there are such characters.
pub proof fn law_words(s: Seq<char>)
    ensures
        forall|i: int| 0 <= i < words(s).len() ==> is_word(#[trigger] words(s)[i]),
        joined(words(s)) == solid(s),
        words(s).len() == 0 <==> (forall|i: int| 0 <= i < s.len() ==> is_white(#[trigger] s[i])),
    decreases s.len(),
{
    if s.len() > 0 {
        let t = s.drop_last();
        let before = words(t);
        law_words(t);
        if is_white(s.last()) {
            assert(forall|i: int| 0 <= i < t.len() ==> s[i] == t[i]);
            if words(s).len() == 0 {
                assert forall|i: int| 0 <= i < s.len() implies is_white(#[trigger] s[i]) by {
                    if i < t.len() {
                        assert(is_white(t[i]));
                    }
                }
            } else {
                let i = choose|i: int| 0 <= i < t.len() && !is_white(#[trigger] t[i]);
                assert(!is_white(s[i]));
            }
        } else {
            assert(!is_white(s[s.len() - 1]));
            if s.len() > 1 && !is_white(s[s.len() - 2]) {
                assert(!is_white(t[t.len() - 1]));
                assert(before.len() > 0);
                let last = before.last();
                assert(is_word(before[before.len() - 1]));
                let longer = last.push(s.last());
                assert(is_word(longer)) by {
                    assert forall|i: int| 0 <= i < longer.len() implies !is_white(
                        #[trigger] longer[i],
                    ) by {
                        if i < last.len() {
                            assert(longer[i] == last[i]);
                        }
                    }
                }
                assert(words(s).drop_last() == before.drop_last());
                assert(joined(words(s)) == joined(before.drop_last()) + longer);
                assert(joined(before.drop_last()) + longer == (joined(before.drop_last())
                    + last).push(s.last()));
            } else {
                assert(words(s).drop_last() == before);
                assert(is_word(seq![s.last()]));
                assert(joined(before) + seq![s.last()] == joined(before).push(s.last()));
            }
        }
    }
}

/// Texts one after the other, with a separator between each two.
pub open spec fn joined_by(list: Seq<Seq<char>>, separator: char) -> Seq<char>
    decreases list.len(),
{
    if list.len() == 0 {
        seq![]
    } else if list.len() == 1 {
        list[0]
    } else {
        joined_by(list.drop_last(), separator).push(separator) + list.last()
    }
}

/// The fields of a text, put together again with the separator between them, are
/// the text. There is at least one field, and the separator is in none.
pub proof fn law_fields(s: Seq<char>, separator: char)
    ensures
        fields(s, separator).len() > 0,
        joined_by(fields(s, separator), separator) == s,
        forall|field: Seq<char>|
            fields(s, separator).contains(field) ==> !(#[trigger] field.contains(separator)),
    decreases s.len(),
{
    let list = fields(s, separator);
    if s.len() == 0 {
        assert(list[0] == s);
        assert forall|field: Seq<char>| list.contains(field) implies !(#[trigger] field.contains(
            separator,
        )) by {}
    } else {
        let before = fields(s.drop_last(), separator);
        law_fields(s.drop_last(), separator);
        assert(s == s.drop_last().push(s.last()));
        if s.last() == separator {
            assert(list.drop_last() == before);
            assert(joined_by(list, separator) == joined_by(before, separator).push(separator));
            assert forall|field: Seq<char>| list.contains(field) implies !(
            #[trigger] field.contains(separator)) by {
                let i = choose|i: int| 0 <= i < list.len() && list[i] == field;
                if i < before.len() {
                    assert(before[i] == field);
                    assert(before.contains(field));
                }
            }
        } else {
            let last = before.last();
            let longer = last.push(s.last());
            assert(list.drop_last() == before.drop_last());
            if before.len() == 1 {
                assert(joined_by(list, separator) == longer);
            } else {
                assert(joined_by(before.drop_last(), separator).push(separator) + longer == (
                joined_by(before.drop_last(), separator).push(separator) + last).push(s.last()));
            }
            assert forall|field: Seq<char>| list.contains(field) implies !(
            #[trigger] field.contains(separator)) by {
                let i = choose|i: int| 0 <= i < list.len() && list[i] == field;
                if i < before.len() - 1 {
                    assert(before[i] == field);
                    assert(before.contains(field));
                } else {
                    assert(before[before.len() - 1] == last);
                    assert(before.contains(last));
                    assert(!last.contains(separator));
                    if field.contains(separator) {
                        let j = choose|j: int| 0 <= j < field.len() && field[j] == separator;
                        assert(j < last.len());
                        assert(last[j] == separator);
                    }
                }
            }
        }
    }
}

/// A text in a column is as wide as the column, or wider where the text is, and
/// starts with the text.
pub proof fn law_padded(s: Seq<char>, width: nat)
    ensures
        padded(s, width).len() == if s.len() < width {
            width
        } else {
            s.len()
        },
        padded(s, width).take(s.len() as int) == s,
{
    assert(padded(s, width).take(s.len() as int) =~= s);
}

/// Two numbers that are written in the same way are the same.
pub proof fn law_decimal_tells_apart(a: int, b: int)
    requires
        decimal(a) == decimal(b),
    ensures
        a == b,
{
    if a < 0 && b < 0 {
        assert(decimal(a).skip(1) == digits((-a) as nat));
        assert(decimal(b).skip(1) == digits((-b) as nat));
        lemma_digits_tell_apart((-a) as nat, (-b) as nat);
    } else if a >= 0 && b >= 0 {
        lemma_digits_tell_apart(a as nat, b as nat);
    } else if a < 0 {
        lemma_digits_first(b as nat);
        assert(decimal(a)[0] == '-');
    } else {
        lemma_digits_first(a as nat);
        assert(decimal(b)[0] == '-');
    }
}

proof fn lemma_digits_first(n: nat)
    ensures
        digits(n).len() > 0,
        digits(n)[0] != '-',
    decreases n,
{
    if n >= 10 {
        lemma_digits_first(n / 10);
    }
}

proof fn lemma_digits_tell_apart(a: nat, b: nat)
    requires
        digits(a) == digits(b),
    ensures
        a == b,
    decreases a,
{
    if a < 10 && b < 10 {
        assert(digits(a)[0] == digit(a as int));
        assert(digits(b)[0] == digit(b as int));
    } else if a >= 10 && b >= 10 {
        assert(digits(a) == digits(a / 10).push(digit((a % 10) as int)));
        assert(digits(b) == digits(b / 10).push(digit((b % 10) as int)));
        assert(digits(a).drop_last() == digits(a / 10));
        assert(digits(b).drop_last() == digits(b / 10));
        assert(digits(a).last() == digit((a % 10) as int));
        assert(digits(b).last() == digit((b % 10) as int));
        lemma_digits_tell_apart(a / 10, b / 10);
    } else if a < 10 {
        lemma_digits_first(b / 10);
        assert(digits(a).len() == 1);
        assert(digits(b).len() > 1);
    } else {
        lemma_digits_first(a / 10);
        assert(digits(b).len() == 1);
        assert(digits(a).len() > 1);
    }
}

/// Commands that are sent at different times have different ids.
pub proof fn law_command_ids_differ(a: int, b: int)
    requires
        a != b,
    ensures
        command_id_at(a) != command_id_at(b),
{
    if command_id_at(a) == command_id_at(b) {
        let n = "cmd-"@.len() as int;
        assert(command_id_at(a).skip(n) == decimal(a));
        assert(command_id_at(b).skip(n) == decimal(b));
        law_decimal_tells_apart(a, b);
    }
}

/// Agents on machines with different names have different ids.
pub proof fn law_client_ids_differ(a: Seq<char>, b: Seq<char>)
    requires
        a != b,
    ensures
        client_id_of(a) != client_id_of(b),
{
    if client_id_of(a) == client_id_of(b) {
        let n = "client-"@.len() as int;
        assert(client_id_of(a).skip(n) == a);
        assert(client_id_of(b).skip(n) == b);
    }
}

/// A client that was added is found as it was added, and every other is found as
/// before. There is one client more only where none had its id.
pub proof fn law_added_client_is_found(roster: Seq<ClientState>, client: ClientState)
    requires
        distinct_ids(roster),
    ensures
        with_client(roster, client).len() == if listed(roster, client.client_id@) {
            roster.len()
        } else {
            roster.len() + 1
        },
        by_id(with_client(roster, client)).contains_key(client.client_id@),
        by_id(with_client(roster, client))[client.client_id@] == client,
        forall|id: Seq<char>|
            id != client.client_id@ ==> {
                &&& #[trigger] by_id(with_client(roster, client)).contains_key(id) == by_id(
                    roster,
                ).contains_key(id)
                &&& by_id(roster).contains_key(id) ==> by_id(with_client(roster, client))[id]
                    == by_id(roster)[id]
            },
{
    lemma_with_client(roster, client);
}

/// A client that was removed is not found, and every other is found as before.
pub proof fn law_removed_client_is_gone(roster: Seq<ClientState>, client_id: Seq<char>)
    requires
        distinct_ids(roster),
    ensures
        !by_id(without_client(roster, client_id)).contains_key(client_id),
        forall|id: Seq<char>|
            id != client_id ==> {
                &&& #[trigger] by_id(without_client(roster, client_id)).contains_key(id) == by_id(
                    roster,
                ).contains_key(id)
                &&& by_id(roster).contains_key(id) ==> by_id(without_client(roster, client_id))[id]
                    == by_id(roster)[id]
            },
{
    lemma_without_client(roster, client_id);
}

/// A client that connects again takes the place that it had: only the later
/// connection counts.
pub proof fn law_later_connection_counts(
    roster: Seq<ClientState>,
    first: ClientState,
    second: ClientState,
)
    requires
        distinct_ids(roster),
        first.client_id@ == second.client_id@,
    ensures
        with_client(with_client(roster, first), second) == with_client(roster, second),
{
    let id = first.client_id@;
    let between = with_client(roster, first);
    lemma_with_client(roster, first);
    if listed(roster, id) {
        let p = place(roster, id);
        assert(0 <= p < roster.len() && roster[p].client_id@ == id);
        assert(between[p] == first);
        lemma_place(between, p);
    } else {
        assert(between[roster.len() as int] == first);
        lemma_place(between, roster.len() as int);
    }
    assert(with_client(between, second) =~= with_client(roster, second));
}

/// A client that connects and is removed again leaves no trace.
pub proof fn law_removal_undoes_connection(roster: Seq<ClientState>, client: ClientState)
    requires
        distinct_ids(roster),
        !listed(roster, client.client_id@),
    ensures
        without_client(with_client(roster, client), client.client_id@) == roster,
{
    let between = with_client(roster, client);
    lemma_with_client(roster, client);
    assert(between[roster.len() as int] == client);
    lemma_place(between, roster.len() as int);
    assert(without_client(between, client.client_id@) =~= roster);
}

/// The clients of a server with the given tokens after all that happened since it
/// started.
pub open spec fn after_events(tokens: Seq<Seq<char>>, events: Seq<Event>) -> Seq<ClientState>
    decreases events.len(),
{
    if events.len() == 0 {
        seq![]
    } else {
        after_event(tokens, after_events(tokens, events.drop_last()), events.last())
    }
}

/// The event let the client in: it is what came with a token that is let in, but
/// for its status.
pub open spec fn lets_in(tokens: Seq<Seq<char>>, event: Event, client: ClientState) -> bool {
    match event {
        Event::Connect { token, client: asked } => tokens.contains(token) && client == (
        ClientState { last_status: client.last_status, ..asked }),
        _ => false,
    }
}

/// Whatever happened, no two clients have the same id. Every client that is there
/// came with a token that is let in, and is as it came, but for its status: its
/// channel is the one that it was given then.
pub proof fn law_clients_came_with_a_token(tokens: Seq<Seq<char>>, events: Seq<Event>)
    ensures
        distinct_ids(after_events(tokens, events)),
        forall|id: Seq<char>| #[trigger]
            by_id(after_events(tokens, events)).contains_key(id) ==> by_id(
                after_events(tokens, events),
            )[id].client_id@ == id && exists|i: int|
                0 <= i < events.len() && lets_in(
                    tokens,
                    #[trigger] events[i],
                    by_id(after_events(tokens, events))[id],
                ),
    decreases events.len(),
{
    if events.len() > 0 {
        let earlier = events.drop_last();
        let before = after_events(tokens, earlier);
        let after = after_events(tokens, events);
        let event = events.last();
        law_clients_came_with_a_token(tokens, earlier);
        lemma_after_event(tokens, before, event);
        assert forall|id: Seq<char>| #[trigger] by_id(after).contains_key(id) implies by_id(
            after,
        )[id].client_id@ == id && exists|i: int|
            0 <= i < events.len() && lets_in(tokens, #[trigger] events[i], by_id(after)[id]) by {
            if event is Connect && tokens.contains(event->token) && event->client.client_id@ == id {
                assert(lets_in(tokens, events[events.len() - 1], by_id(after)[id]));
            } else {
                let i = choose|i: int|
                    0 <= i < earlier.len() && lets_in(
                        tokens,
                        #[trigger] earlier[i],
                        by_id(before)[id],
                    );
                assert(lets_in(tokens, events[i], by_id(after)[id]));
            }
        }
    }
}

/// What an event does to the clients, by their ids.
proof fn lemma_after_event(tokens: Seq<Seq<char>>, roster: Seq<ClientState>, event: Event)
    requires
        distinct_ids(roster),
        forall|id: Seq<char>| #[trigger]
            by_id(roster).contains_key(id) ==> by_id(roster)[id].client_id@ == id,
    ensures
        distinct_ids(after_event(tokens, roster, event)),
        by_id(after_event(tokens, roster, event)) == match event {
            Event::Connect { token, client } => if tokens.contains(token) {
                by_id(roster).insert(client.client_id@, client)
            } else {
                by_id(roster)
            },
            Event::Report(report) => if by_id(roster).contains_key(report.client_id@) {
                by_id(roster).insert(
                    report.client_id@,
                    ClientState {
                        last_status: Some(report),
                        ..by_id(roster)[report.client_id@]
                    },
                )
            } else {
                by_id(roster)
            },
            Event::Remove(client_id) => by_id(roster).remove(client_id),
            Event::Close { client_id, channel } => if serves(roster, client_id, channel) {
                by_id(roster).remove(client_id)
            } else {
                by_id(roster)
            },
        },
{
    match event {
        Event::Connect { token, client } => {
            lemma_with_client(roster, client);
        },
        Event::Report(report) => {
            if by_id(roster).contains_key(report.client_id@) {
                lemma_with_client(
                    roster,
                    ClientState {
                        last_status: Some(report),
                        ..by_id(roster)[report.client_id@]
                    },
                );
            }
        },
        Event::Remove(client_id) => {
            lemma_without_client(roster, client_id);
        },
        Event::Close { client_id, .. } => {
            lemma_without_client(roster, client_id);
        },
    }
}

/// The event ends the connection of a client: it is removed, its connection
/// closes, or it connects again.
pub open spec fn ends(tokens: Seq<Seq<char>>, event: Event, client: ClientState) -> bool {
    match event {
        Event::Connect { token, client: asked } => tokens.contains(token) && asked.client_id@
            == client.client_id@,
        Event::Report(_) => false,
        Event::Remove(client_id) => client_id == client.client_id@,
        Event::Close { client_id, channel } => client_id == client.client_id@
            && client.command_sender == Some(channel),
    }
}

/// A client that was let in is there, as it came but for its status, as long as
/// nothing has ended its connection.
pub proof fn law_connected_client_stays(tokens: Seq<Seq<char>>, events: Seq<Event>, i: int)
    requires
        0 <= i < events.len(),
        events[i] matches Event::Connect { token, client } && tokens.contains(token),
        forall|j: int|
            i < j < events.len() ==> !ends(tokens, #[trigger] events[j], events[i]->client),
    ensures
        by_id(after_events(tokens, events)).contains_key(events[i]->client.client_id@),
        lets_in(
            tokens,
            events[i],
            by_id(after_events(tokens, events))[events[i]->client.client_id@],
        ),
    decreases events.len(),
{
    let client = events[i]->client;
    let earlier = events.drop_last();
    let before = after_events(tokens, earlier);
    law_clients_came_with_a_token(tokens, earlier);
    lemma_after_event(tokens, before, events.last());
    if i < events.len() - 1 {
        assert(earlier[i] == events[i]);
        assert forall|j: int| i < j < earlier.len() implies !ends(
            tokens,
            #[trigger] earlier[j],
            client,
        ) by {
            assert(earlier[j] == events[j]);
        }
        law_connected_client_stays(tokens, earlier, i);
        assert(!ends(tokens, events[events.len() - 1], client));
    }
}

/// When the connection of a client closes, the client is gone, and every other is
/// there as before.
pub proof fn law_closed_client_is_gone(
    tokens: Seq<Seq<char>>,
    roster: Seq<ClientState>,
    client_id: Seq<char>,
    channel: mpsc::Sender<CommandRequest>,
)
    requires
        distinct_ids(roster),
        serves(roster, client_id, channel),
    ensures
        by_id(after_event(tokens, roster, Event::Close { client_id, channel })) == by_id(
            roster,
        ).remove(client_id),
{
    lemma_without_client(roster, client_id);
}

/// A client that connects again gets its commands on the new stream and not on the
/// older one. It is still one client, and when the older stream closes it stays.
pub proof fn law_older_stream_is_left_alone(
    tokens: Seq<Seq<char>>,
    roster: Seq<ClientState>,
    client: ClientState,
    channel: mpsc::Sender<CommandRequest>,
    stream: mpsc::Receiver<CommandRequest>,
    older_channel: mpsc::Sender<CommandRequest>,
    older_stream: mpsc::Receiver<CommandRequest>,
)
    requires
        distinct_ids(roster),
        serves(roster, client.client_id@, older_channel),
        connected(older_channel, older_stream),
        client.command_sender == Some(channel),
        own_channel(roster, channel, stream),
    ensures
        channel != older_channel,
        stream != older_stream,
        connected(channel, stream),
        !connected(channel, older_stream),
        with_client(roster, client).len() == roster.len(),
        serves(with_client(roster, client), client.client_id@, channel),
        after_event(
            tokens,
            with_client(roster, client),
            Event::Close { client_id: client.client_id@, channel: older_channel },
        ) == with_client(roster, client),
{
    lemma_with_client(roster, client);
}

/// When a stream closes that is not the client's own, the client stays.
pub proof fn law_other_streams_are_left_alone(
    tokens: Seq<Seq<char>>,
    roster: Seq<ClientState>,
    client_id: Seq<char>,
    channel: mpsc::Sender<CommandRequest>,
    stream: mpsc::Receiver<CommandRequest>,
    other_channel: mpsc::Sender<CommandRequest>,
    other_stream: mpsc::Receiver<CommandRequest>,
)
    requires
        serves(roster, client_id, channel),
        forall|r: mpsc::Receiver<CommandRequest>| #[trigger]
            connected(channel, r) ==> r == stream,
        connected(other_channel, other_stream),
        other_stream != stream,
    ensures
        !connected(channel, other_stream),
        after_event(tokens, roster, Event::Close { client_id, channel: other_channel }) == roster,
{
}

/// Whatever happened, where every client connects without a status: the status of
/// a client is one that was reported under its id.
pub proof fn law_statuses_were_reported(tokens: Seq<Seq<char>>, events: Seq<Event>)
    requires
        forall|i: int|
            0 <= i < events.len() ==> ((#[trigger] events[i]) matches Event::Connect {
                client,
                ..
            } ==> client.last_status is None),
    ensures
        forall|id: Seq<char>| #[trigger]
            by_id(after_events(tokens, events)).contains_key(id) ==> (by_id(
                after_events(tokens, events),
            )[id].last_status matches Some(report) ==> report.client_id@ == id && exists|i: int|
                0 <= i < events.len() && (#[trigger] events[i]) == Event::Report(report)),
    decreases events.len(),
{
    if events.len() > 0 {
        let earlier = events.drop_last();
        let before = after_events(tokens, earlier);
        let after = after_events(tokens, events);
        let event = events.last();
        assert forall|i: int| 0 <= i < earlier.len() implies ((
        #[trigger] earlier[i]) matches Event::Connect { client, .. } ==> client.last_status is None)
            by {
            assert(earlier[i] == events[i]);
        }
        law_statuses_were_reported(tokens, earlier);
        law_clients_came_with_a_token(tokens, earlier);
        lemma_after_event(tokens, before, event);
        assert(event == events[events.len() - 1]);
        assert forall|id: Seq<char>| #[trigger] by_id(after).contains_key(id) implies (by_id(
            after,
        )[id].last_status matches Some(report) ==> report.client_id@ == id && exists|i: int|
            0 <= i < events.len() && (#[trigger] events[i]) == Event::Report(report)) by {
            if by_id(after)[id].last_status is Some {
                let report = by_id(after)[id].last_status->0;
                if by_id(before).contains_key(id) && by_id(before)[id].last_status == Some(report) {
                    let i = choose|i: int|
                        0 <= i < earlier.len() && (#[trigger] earlier[i]) == Event::Report(report);
                    assert(events[i] == earlier[i]);
                } else {
                    assert(events[events.len() - 1] == Event::Report(report));
                }
            }
        }
    }
}

/// A status report changes nothing of a client but its last status, and takes no
/// other client's.
pub proof fn law_report_changes_status_only(
    tokens: Seq<Seq<char>>,
    roster: Seq<ClientState>,
    report: StatusReport,
)
    requires
        distinct_ids(roster),
    ensures
        by_id(after_event(tokens, roster, Event::Report(report))).dom() == by_id(roster).dom(),
        forall|id: Seq<char>| #[trigger]
            by_id(roster).contains_key(id) ==> {
                let before = by_id(roster)[id];
                let after = by_id(after_event(tokens, roster, Event::Report(report)))[id];
                if id == report.client_id@ {
                    after == (ClientState { last_status: Some(report), ..before })
                } else {
                    after == before
                }
            },
{
    let id = report.client_id@;
    if by_id(roster).contains_key(id) {
        let p = place(roster, id);
        assert(roster[p].client_id@ == id);
        lemma_with_client(
            roster,
            ClientState { last_status: Some(report), ..by_id(roster)[id] },
        );
        assert(by_id(after_event(tokens, roster, Event::Report(report))).dom() =~= by_id(
            roster,
        ).dom());
    }
}

/// A part of a text, with what stands before and behind it.
pub open spec fn around(before: Seq<char>, part: Seq<char>, after: Seq<char>) -> Seq<char> {
    before + part + after
}

/// The text holds the part.
pub open spec fn holds(text: Seq<char>, part: Seq<char>) -> bool {
    exists|before: Seq<char>, after: Seq<char>| text == #[trigger] around(before, part, after)
}

/// Every client that is connected has its row in the list that is printed.
pub proof fn law_listing_shows_every_client(roster: Seq<ClientState>, i: int)
    requires
        0 <= i < roster.len(),
    ensures
        holds(
            listing(roster),
            table_row(
                roster[i].client_id@,
                roster[i].hostname@,
                roster[i].os@,
                roster[i].version@,
            ),
        ),
{
    let row = table_row(
        roster[i].client_id@,
        roster[i].hostname@,
        roster[i].os@,
        roster[i].version@,
    );
    lemma_rows_show_every_client(roster, i);
    let (before, after) = choose|before: Seq<char>, after: Seq<char>|
        table_rows(roster) == #[trigger] around(before, row, after);
    let head = listing_head(roster.len());
    assert(head + around(before, row, after) =~= around(head + before, row, after));
}

proof fn lemma_rows_show_every_client(roster: Seq<ClientState>, i: int)
    requires
        0 <= i < roster.len(),
    ensures
        holds(
            table_rows(roster),
            table_row(
                roster[i].client_id@,
                roster[i].hostname@,
                roster[i].os@,
                roster[i].version@,
            ),
        ),
    decreases roster.len(),
{
    let row = table_row(
        roster[i].client_id@,
        roster[i].hostname@,
        roster[i].os@,
        roster[i].version@,
    );
    let rest = table_rows(roster.drop_last());
    let client = roster.last();
    let last = table_row(client.client_id@, client.hostname@, client.os@, client.version@);
    if i == roster.len() - 1 {
        assert(table_rows(roster) =~= around(rest, row, Seq::empty()));
    } else {
        lemma_rows_show_every_client(roster.drop_last(), i);
        let (before, after) = choose|before: Seq<char>, after: Seq<char>|
            rest == #[trigger] around(before, row, after);
        assert(table_rows(roster) =~= around(before, row, after + last));
    }
}

/// The white space around a line makes no difference.
pub proof fn law_white_space_around_a_line(
    selected: Option<Seq<char>>,
    roster: Seq<ClientState>,
    line: Seq<char>,
)
    ensures
        console_step(selected, roster, trimmed(line)) == console_step(selected, roster, line),
{
    law_trimmed_twice(line);
}

/// The console does nothing with a line exactly where the line is blank.
pub proof fn law_blank_lines_do_nothing(
    selected: Option<Seq<char>>,
    roster: Seq<ClientState>,
    line: Seq<char>,
)
    ensures
        console_step(selected, roster, line).1 is Nothing <==> (forall|i: int|
            0 <= i < line.len() ==> is_white(#[trigger] line[i])),
        console_step(selected, roster, line).1 is Nothing ==> console_step(
            selected,
            roster,
            line,
        ).0 == selected,
{
    law_words_of_trimmed(line);
    law_words(line);
}

/// Only a line that starts with the word `select`, and names a client, changes
/// which client is selected. Afterwards the selected client is one that is
/// connected, if there is one selected.
pub proof fn law_only_select_selects(
    selected: Option<Seq<char>>,
    roster: Seq<ClientState>,
    line: Seq<char>,
)
    ensures
        ({
            let after = console_step(selected, roster, line).0;
            let named = words(line).len() >= 2 && words(line)[0] == "select"@;
            &&& !named ==> after == selected
            &&& named ==> after == if by_id(roster).contains_key(words(line)[1]) {
                Some(words(line)[1])
            } else {
                None
            }
        }),
{
    law_words_of_trimmed(line);
    reveal_strlit("list");
    reveal_strlit("select");
    assert("list"@.len() != "select"@.len());
}

/// Only a line that starts with the word `exit` leaves the console.
pub proof fn law_only_exit_leaves(
    selected: Option<Seq<char>>,
    roster: Seq<ClientState>,
    line: Seq<char>,
)
    ensures
        console_step(selected, roster, line).1 is Exit <==> words(line).len() > 0 && words(line)[0]
            == "exit"@,
{
    law_words_of_trimmed(line);
    reveal_strlit("list");
    reveal_strlit("select");
    reveal_strlit("exit");
    assert("list"@[0] != "exit"@[0]);
    assert("select"@.len() != "exit"@.len());
}

/// A word that the console keeps for itself.
pub open spec fn reserved(word: Seq<char>) -> bool {
    word == "list"@ || word == "select"@ || word == "exit"@
}

/// A command goes out exactly where a client is selected and the line does not
/// start with a word of the console's own. It goes to the selected client, and is
/// the line without the white space around it.
pub proof fn law_commands_go_to_the_selected_client(
    selected: Option<Seq<char>>,
    roster: Seq<ClientState>,
    line: Seq<char>,
)
    ensures
        console_step(selected, roster, line).1 is Dispatch <==> selected is Some && words(
            line,
        ).len() > 0 && !reserved(words(line)[0]),
        console_step(selected, roster, line).1 matches StepView::Dispatch {
            client_id,
            command,
        } ==> selected == Some(client_id) && command == trimmed(line),
{
    law_words_of_trimmed(line);
}

/// Once a client that is connected was selected, what the operator enters next
/// goes to that client, unless it starts with a word of the console's own.
pub proof fn law_select_then_command(
    selected: Option<Seq<char>>,
    roster: Seq<ClientState>,
    first: Seq<char>,
    later_roster: Seq<ClientState>,
    second: Seq<char>,
)
    requires
        words(first).len() >= 2,
        words(first)[0] == "select"@,
        by_id(roster).contains_key(words(first)[1]),
        words(second).len() > 0,
        !reserved(words(second)[0]),
    ensures
        console_step(
            console_step(selected, roster, first).0,
            later_roster,
            second,
        ).1 == (StepView::Dispatch { client_id: words(first)[1], command: trimmed(second) }),
{
    law_only_select_selects(selected, roster, first);
    law_commands_go_to_the_selected_client(
        console_step(selected, roster, first).0,
        later_roster,
        second,
    );
}

/// To send a command takes no client away but the one that it is for, and that
/// one only where it has no channel. The replies and the tokens stay as they are.
pub proof fn law_sending_spares_the_others(
    before: ServerState,
    after: ServerState,
    client_id: Seq<char>,
    command: Seq<char>,
    millis: int,
    delivery: Delivery,
)
    requires
        sent_at(before, after, client_id, command, millis, delivery),
    ensures
        after.tokens() == before.tokens(),
        after.results() == before.results(),
        delivery is Send ==> after == before,
        forall|id: Seq<char>|
            id != client_id || before.clients()[id].command_sender is Some ==> {
                &&& #[trigger] after.clients().contains_key(id) == before.clients().contains_key(id)
                &&& before.clients().contains_key(id) ==> after.clients()[id]
                    == before.clients()[id]
            },
{
}

/// A command for a client that is connected goes into the channel that the client
/// was given, and so comes out at the end that its agent holds.
pub proof fn law_commands_reach_the_agent(
    before: ServerState,
    after: ServerState,
    client_id: Seq<char>,
    command: Seq<char>,
    millis: int,
    delivery: Delivery,
    receiver: mpsc::Receiver<CommandRequest>,
)
    requires
        before.clients().contains_key(client_id),
        before.clients()[client_id].command_sender matches Some(sender) && connected(
            sender,
            receiver,
        ),
        sent_at(before, after, client_id, command, millis, delivery),
    ensures
        delivery matches Delivery::Send { sender, request } && connected(sender, receiver)
            && request.command@ == command && request.command_id@ == command_id_at(millis),
{
}

/// A reply that is kept is found under the id of its command, in place of any
/// earlier one, and every other reply is found as before.
pub proof fn law_kept_reply_is_found(
    results: Map<Seq<char>, CommandReply>,
    command_id: Seq<char>,
    reply: CommandReply,
)
    ensures
        results.insert(command_id, reply).contains_key(command_id),
        results.insert(command_id, reply)[command_id] == reply,
        forall|id: Seq<char>|
            id != command_id ==> {
                &&& #[trigger] results.insert(command_id, reply).contains_key(id)
                    == results.contains_key(id)
                &&& results.contains_key(id) ==> results.insert(command_id, reply)[id]
                    == results[id]
            },
{
}

/// The order in which the disks are read does not matter: neither to whether they
/// are sound, nor to the space on them.
pub proof fn law_order_of_disks(a: Seq<DiskSpace>, b: Seq<DiskSpace>)
    requires
        a.to_multiset() == b.to_multiset(),
    ensures
        total_space(a) == total_space(b),
        available_space(a) == available_space(b),
        sound_disks(a) == sound_disks(b),
    decreases a.len(),
{
    broadcast use vstd::seq_lib::group_to_multiset_ensures;

    assert(a.len() == a.to_multiset().len());
    assert(b.len() == b.to_multiset().len());
    if a.len() > 0 {
        let last = a.last();
        assert(a.contains(last)) by {
            assert(a[a.len() - 1] == last);
        }
        assert(b.to_multiset().count(last) > 0);
        let i = choose|i: int| 0 <= i < b.len() && b[i] == last;
        assert(a.drop_last() == a.remove(a.len() - 1));
        law_order_of_disks(a.drop_last(), b.remove(i));
        lemma_disk_taken_out(a, a.len() - 1);
        lemma_disk_taken_out(b, i);
    }
}

/// What describes the disks in one order describes them in any other: the space on
/// them and the percentage of it in use.
pub proof fn law_description_of_disks<F: Fn(u64, u64) -> u64>(
    disk: DiskInfo,
    a: Seq<DiskSpace>,
    b: Seq<DiskSpace>,
    percent: F,
)
    requires
        a.to_multiset() == b.to_multiset(),
    ensures
        describes_disks(disk, a, percent) == describes_disks(disk, b, percent),
{
    law_order_of_disks(a, b);
}

/// Two readings of the same disks, in whatever order, are described in the same
/// way, where a part and a whole give one percentage.
pub proof fn law_readings_of_disks_agree<F: Fn(u64, u64) -> u64>(
    first: DiskInfo,
    second: DiskInfo,
    a: Seq<DiskSpace>,
    b: Seq<DiskSpace>,
    percent: F,
)
    requires
        a.to_multiset() == b.to_multiset(),
        describes_disks(first, a, percent),
        describes_disks(second, b, percent),
        forall|part: u64, whole: u64, x: u64, y: u64| #[trigger]
            call_ensures(percent, (part, whole), x) && #[trigger] call_ensures(
                percent,
                (part, whole),
                y,
            ) ==> x == y,
    ensures
        first == second,
{
    law_order_of_disks(a, b);
}

proof fn lemma_disk_taken_out(disks: Seq<DiskSpace>, i: int)
    requires
        0 <= i < disks.len(),
    ensures
        total_space(disks) == total_space(disks.remove(i)) + disks[i].total,
        available_space(disks) == available_space(disks.remove(i)) + disks[i].available,
        sound_disks(disks) == (sound_disks(disks.remove(i)) && disks[i].available
            <= disks[i].total),
    decreases disks.len(),
{
    let rest = disks.remove(i);
    if i == disks.len() - 1 {
        assert(rest == disks.drop_last());
    } else {
        assert(rest.drop_last() == disks.drop_last().remove(i));
        assert(rest.last() == disks.last());
        lemma_disk_taken_out(disks.drop_last(), i);
    }
    if sound_disks(disks) {
        assert forall|j: int| 0 <= j < rest.len() implies (#[trigger] rest[j]).available
            <= rest[j].total by {
            assert(rest[j] == disks[if j < i {
                j
            } else {
                j + 1
            }]);
        }
    } else if sound_disks(rest) {
        let j = choose|j: int|
            0 <= j < disks.len() && (#[trigger] disks[j]).available > disks[j].total;
        if j != i {
            assert(rest[if j < i {
                j
            } else {
                j - 1
            }] == disks[j]);
        }
    }
}

/// The order in which the interfaces are read does not matter to the traffic on
/// them.
pub proof fn law_order_of_traffic(a: Seq<Traffic>, b: Seq<Traffic>)
    requires
        a.to_multiset() == b.to_multiset(),
    ensures
        total_transmitted(a) == total_transmitted(b),
        total_received(a) == total_received(b),
    decreases a.len(),
{
    broadcast use vstd::seq_lib::group_to_multiset_ensures;

    assert(a.len() == a.to_multiset().len());
    assert(b.len() == b.to_multiset().len());
    if a.len() > 0 {
        let last = a.last();
        assert(a.contains(last)) by {
            assert(a[a.len() - 1] == last);
        }
        assert(b.to_multiset().count(last) > 0);
        let i = choose|i: int| 0 <= i < b.len() && b[i] == last;
        assert(a.drop_last() == a.remove(a.len() - 1));
        law_order_of_traffic(a.drop_last(), b.remove(i));
        lemma_traffic_taken_out(a, a.len() - 1);
        lemma_traffic_taken_out(b, i);
    }
}

proof fn lemma_traffic_taken_out(traffic: Seq<Traffic>, i: int)
    requires
        0 <= i < traffic.len(),
    ensures
        total_transmitted(traffic) == total_transmitted(traffic.remove(i))
            + traffic[i].transmitted,
        total_received(traffic) == total_received(traffic.remove(i)) + traffic[i].received,
    decreases traffic.len(),
{
    let rest = traffic.remove(i);
    if i == traffic.len() - 1 {
        assert(rest == traffic.drop_last());
    } else {
        assert(rest.drop_last() == traffic.drop_last().remove(i));
        assert(rest.last() == traffic.last());
        lemma_traffic_taken_out(traffic.drop_last(), i);
    }
}

/// On sound disks no more is available than there is.
pub proof fn law_available_space_is_there(disks: Seq<DiskSpace>)
    requires
        sound_disks(disks),
    ensures
        available_space(disks) <= total_space(disks),
    decreases disks.len(),
{
    if disks.len() > 0 {
        let before = disks.drop_last();
        assert forall|i: int| 0 <= i < before.len() implies (#[trigger] before[i]).available
            <= before[i].total by {
            assert(before[i] == disks[i]);
        }
        law_available_space_is_there(before);
        assert(disks.last() == disks[disks.len() - 1]);
    }
}

/// The address of a machine is the first address of an interface that is not the
/// loopback, and no interface before it would do. Only where there is none is the
/// address unknown.
pub proof fn law_machine_address(interfaces: Seq<Interface>)
    ensures
        (exists|i: int| #[trigger] first_eligible(interfaces, i) && machine_address(interfaces)
            == interfaces[i].addresses@[0]@) || (machine_address(interfaces) == "Unknown"@
            && forall|i: int|
            0 <= i < interfaces.len() ==> !(#[trigger] interfaces[i]).eligible()),
    decreases interfaces.len(),
{
    if interfaces.len() > 0 {
        if interfaces[0].eligible() {
            assert(first_eligible(interfaces, 0));
        } else {
            let rest = interfaces.drop_first();
            law_machine_address(rest);
            if exists|i: int| #[trigger] first_eligible(rest, i) && machine_address(rest)
                == rest[i].addresses@[0]@ {
                let i = choose|i: int| #[trigger]
                    first_eligible(rest, i) && machine_address(rest) == rest[i].addresses@[0]@;
                assert forall|j: int| 0 <= j < i + 1 implies !(
                #[trigger] interfaces[j]).eligible() by {
                    if j > 0 {
                        assert(interfaces[j] == rest[j - 1]);
                    }
                }
                assert(first_eligible(interfaces, i + 1));
            } else {
                assert forall|i: int| 0 <= i < interfaces.len() implies !(
                #[trigger] interfaces[i]).eligible() by {
                    if i > 0 {
                        assert(interfaces[i] == rest[i - 1]);
                    }
                }
            }
        }
    }
}

/// The interface at the position is the first that can give the address.
pub open spec fn first_eligible(interfaces: Seq<Interface>, i: int) -> bool {
    &&& 0 <= i < interfaces.len()
    &&& interfaces[i].eligible()
    &&& forall|j: int| 0 <= j < i ==> !(#[trigger] interfaces[j]).eligible()
}

} // verus!
