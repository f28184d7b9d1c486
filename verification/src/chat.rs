//! The chat server's model: its state, the commands a line can carry, and what
//! one line does to the state and who receives what.
use vstd::prelude::*;
use crate::text::{trim, starts_with, split_once_char};
use crate::number::decimal;

verus! {

/// Replayed history lines on `/join` and `/name`.
pub const REPLAY_LINES: usize = 50;

/// Stored history lines per room.
pub const HISTORY_CAP: usize = 100;

/// The first position at or after `i` whose key is `k`, or the length of `t`.
pub open spec fn key_pos_from<K, V>(t: Seq<(K, V)>, k: K, i: int) -> int
    decreases t.len() - i,
{
    if i < 0 || i >= t.len() {
        t.len() as int
    } else if t[i].0 == k {
        i
    } else {
        key_pos_from(t, k, i + 1)
    }
}

/// The first position whose key is `k`, or the length of `t`.
pub open spec fn key_pos<K, V>(t: Seq<(K, V)>, k: K) -> int {
    key_pos_from(t, k, 0)
}

/// The value stored under `k` in the association list `t`.
pub open spec fn lookup<K, V>(t: Seq<(K, V)>, k: K) -> Option<V> {
    let p = key_pos(t, k);
    if 0 <= p < t.len() {
        Some(t[p].1)
    } else {
        None
    }
}

/// `t` with `v` stored under `k`: in place where `k` is present, appended otherwise.
pub open spec fn put<K, V>(t: Seq<(K, V)>, k: K, v: V) -> Seq<(K, V)> {
    let p = key_pos(t, k);
    if 0 <= p < t.len() {
        t.update(p, (k, v))
    } else {
        t.push((k, v))
    }
}

/// The server's state.
pub struct ChatState {
    /// The connected clients' ids, in order of connection.
    pub clients: Seq<usize>,
    /// Display names set with `/name`, by client id, in order of first setting.
    pub names: Seq<(usize, Seq<char>)>,
    /// Current rooms set with `/name` or `/join`, by client id.
    pub rooms: Seq<(usize, Seq<char>)>,
    /// Stored chat lines, by room.
    pub history: Seq<(Seq<char>, Seq<Seq<char>>)>,
    /// The id the next accepted connection gets.
    pub next_id: usize,
}

/// One message to one client: its id and the text.
pub type Sent = (usize, Seq<char>);

/// What a text line asks for.
pub enum Command {
    Who,
    Count,
    Name(Seq<char>),
    Dm(Seq<char>, Seq<char>),
    Ping,
    Join(Seq<char>),
    GetRooms,
    Say(Seq<char>),
}

/// The command that a (non-JSON) line carries, read from its trimmed form.
pub open spec fn command_of(text: Seq<char>) -> Command {
    let t = trim(text);
    if t == "/who"@ {
        Command::Who
    } else if t == "/count"@ {
        Command::Count
    } else if starts_with(t, "/name "@) {
        Command::Name(trim(t.skip("/name "@.len() as int)))
    } else if starts_with(t, "/dm "@) {
        let rest = trim(t.skip("/dm "@.len() as int));
        let parts = split_once_char(rest, ' ');
        Command::Dm(
            trim(parts.0),
            match parts.1 {
                Some(b) => trim(b),
                None => Seq::empty(),
            },
        )
    } else if t == "/ping"@ {
        Command::Ping
    } else if starts_with(t, "/join "@) {
        Command::Join(trim(t.skip("/join "@.len() as int)))
    } else if t == "/get_rooms"@ {
        Command::GetRooms
    } else {
        Command::Say(t)
    }
}

/// The initial state: nobody connected, ids start at 1.
pub open spec fn initial_state() -> ChatState {
    ChatState {
        clients: Seq::empty(),
        names: Seq::empty(),
        rooms: Seq::empty(),
        history: Seq::empty(),
        next_id: 1,
    }
}

/// The name shown for client `cid`: its `/name`, or `user<id>`.
pub open spec fn label_of(s: ChatState, cid: usize) -> Seq<char> {
    match lookup(s.names, cid) {
        Some(n) => n,
        None => "user"@ + decimal(cid as nat),
    }
}

/// The room of client `cid`: the one it set, or `lobby`.
pub open spec fn room_of(s: ChatState, cid: usize) -> Seq<char> {
    match lookup(s.rooms, cid) {
        Some(r) => r,
        None => "lobby"@,
    }
}

/// The stored lines of `room`.
pub open spec fn history_of(s: ChatState, room: Seq<char>) -> Seq<Seq<char>> {
    match lookup(s.history, room) {
        Some(h) => h,
        None => Seq::empty(),
    }
}

/// The last `REPLAY_LINES` lines of `h` (all of them where there are fewer).
pub open spec fn recent(h: Seq<Seq<char>>) -> Seq<Seq<char>> {
    if h.len() > REPLAY_LINES {
        h.skip(h.len() - REPLAY_LINES)
    } else {
        h
    }
}

/// The lines of `h`, each sent to `to`.
pub open spec fn sent_to(to: usize, h: Seq<Seq<char>>) -> Seq<Sent> {
    h.map_values(|m: Seq<char>| (to, m))
}

/// `h` with its oldest line dropped where it holds more than `HISTORY_CAP` lines.
pub open spec fn capped(h: Seq<Seq<char>>) -> Seq<Seq<char>> {
    if h.len() > HISTORY_CAP {
        h.drop_first()
    } else {
        h
    }
}

/// `msg` sent to each id of `cs` other than `id`, in order.
pub open spec fn fan_out(cs: Seq<usize>, id: usize, msg: Seq<char>) -> Seq<Sent>
    decreases cs.len(),
{
    if cs.len() == 0 {
        Seq::empty()
    } else {
        let prev = fan_out(cs.drop_last(), id, msg);
        if cs.last() != id {
            prev.push((cs.last(), msg))
        } else {
            prev
        }
    }
}

/// `msg` sent to each id of `cs` other than `id` whose room is `room`, in order.
pub open spec fn room_fan_out(s: ChatState, cs: Seq<usize>, id: usize, room: Seq<char>, msg: Seq<char>) -> Seq<Sent>
    decreases cs.len(),
{
    if cs.len() == 0 {
        Seq::empty()
    } else {
        let prev = room_fan_out(s, cs.drop_last(), id, room, msg);
        if cs.last() != id && room_of(s, cs.last()) == room {
            prev.push((cs.last(), msg))
        } else {
            prev
        }
    }
}

/// The labels of the ids of `cs` other than `id`, in order.
pub open spec fn other_labels(s: ChatState, cs: Seq<usize>, id: usize) -> Seq<Seq<char>>
    decreases cs.len(),
{
    if cs.len() == 0 {
        Seq::empty()
    } else {
        let prev = other_labels(s, cs.drop_last(), id);
        if cs.last() != id {
            prev.push(label_of(s, cs.last()))
        } else {
            prev
        }
    }
}

/// `parts` joined with `sep` between neighbours.
pub open spec fn join(parts: Seq<Seq<char>>, sep: Seq<char>) -> Seq<char>
    decreases parts.len(),
{
    if parts.len() == 0 {
        Seq::empty()
    } else if parts.len() == 1 {
        parts[0]
    } else {
        join(parts.drop_last(), sep) + sep + parts.last()
    }
}

/// The answer to `/who`.
pub open spec fn who_reply(s: ChatState, id: usize) -> Seq<char> {
    let labels = other_labels(s, s.clients, id);
    if labels.len() == 0 {
        "No one"@
    } else {
        "Online: "@ + join(labels, ", "@)
    }
}

/// The answer to `/count`.
pub open spec fn count_reply(s: ChatState) -> Seq<char> {
    "Total active clients: "@ + decimal(s.clients.len())
}

/// The text `{:?}` writes for a string: quoted, with escapes (`format!("{:?}", s)`).
pub uninterp spec fn debug_str(s: Seq<char>) -> Seq<char>;

/// Whether every character of `s` is printable ASCII other than `"` and `\`:
/// text that `{:?}` writes unescaped.
pub open spec fn plain_text(s: Seq<char>) -> bool {
    forall|i: int|
        0 <= i < s.len() ==> 0x20 <= (#[trigger] s[i] as u32) <= 0x7e && s[i] != '"' && s[i] != '\\'
}

/// The text `{:?}` writes for a string: plain text in double quotes, anything
/// else as std escapes it.
pub open spec fn debug_text(s: Seq<char>) -> Seq<char> {
    if plain_text(s) {
        seq!['"'] + s + seq!['"']
    } else {
        debug_str(s)
    }
}

/// `{:?}` of a list of strings: `[` and `]` round the entries' `{:?}`, separated by `, `.
pub open spec fn debug_list(items: Seq<Seq<char>>) -> Seq<char> {
    "["@ + join(items.map_values(|i: Seq<char>| debug_text(i)), ", "@) + "]"@
}

/// The answer to `/get_rooms`: every stored room entry, stale ones included.
pub open spec fn rooms_reply(s: ChatState) -> Seq<char> {
    "Active rooms: "@ + debug_list(s.rooms.map_values(|e: (usize, Seq<char>)| e.1))
}

/// The first position in `t` whose value is `v`, or the length of `t`.
pub open spec fn value_pos_from(t: Seq<(usize, Seq<char>)>, v: Seq<char>, i: int) -> int
    decreases t.len() - i,
{
    if i < 0 || i >= t.len() {
        t.len() as int
    } else if t[i].1 == v {
        i
    } else {
        value_pos_from(t, v, i + 1)
    }
}

/// The client that a `/dm` to `target` goes to: the first with that name.
pub open spec fn dm_target(s: ChatState, target: Seq<char>) -> Option<usize> {
    let p = value_pos_from(s.names, target, 0);
    if 0 <= p < s.names.len() {
        Some(s.names[p].0)
    } else {
        None
    }
}

/// The text of a direct message from `id`.
pub open spec fn dm_text(s: ChatState, id: usize, body: Seq<char>) -> Seq<char> {
    "(DM from "@ + label_of(s, id) + ") "@ + body
}

/// What a `/dm` sends: one message to the named client, if it is connected.
pub open spec fn dm_sent(s: ChatState, id: usize, target: Seq<char>, body: Seq<char>) -> Seq<Sent> {
    match dm_target(s, target) {
        Some(t) => if s.clients.contains(t) {
            seq![(t, dm_text(s, id, body))]
        } else {
            Seq::empty()
        },
        None => Seq::empty(),
    }
}

/// The line stored and sent for a chat message.
pub open spec fn say_line(s: ChatState, id: usize, t: Seq<char>) -> Seq<char> {
    label_of(s, id) + ": "@ + t
}

/// What the text line `text` from client `id` does: the next state, and the
/// messages sent, in order. `is_json` tells whether the line is a JSON document;
/// such a line goes unchanged to every other connected client, whatever its room.
pub open spec fn step(s: ChatState, id: usize, text: Seq<char>, is_json: bool) -> (ChatState, Seq<Sent>) {
    if is_json {
        (s, fan_out(s.clients, id, text))
    } else {
        match command_of(text) {
            Command::Who => (s, seq![(id, who_reply(s, id))]),
            Command::Count => (s, seq![(id, count_reply(s))]),
            Command::Name(n) => {
                let s1 = ChatState {
                    rooms: put(s.rooms, id, "lobby"@),
                    names: if n.len() > 0 {
                        put(s.names, id, n)
                    } else {
                        s.names
                    },
                    ..s
                };
                (s1, sent_to(id, recent(history_of(s, "lobby"@))).push((id, "name set to "@ + n)))
            },
            Command::Dm(target, body) => (s, dm_sent(s, id, target, body)),
            Command::Ping => (s, seq![(id, "pong"@)]),
            Command::Join(r) => if r.len() == 0 {
                (s, Seq::empty())
            } else {
                (
                    ChatState { rooms: put(s.rooms, id, r), ..s },
                    seq![(id, "Joined room: "@ + r)] + sent_to(id, recent(history_of(s, r))),
                )
            },
            Command::GetRooms => (s, seq![(id, rooms_reply(s))]),
            Command::Say(t) => {
                let room = room_of(s, id);
                let line = say_line(s, id, t);
                (
                    ChatState { history: put(s.history, room, capped(history_of(s, room).push(line))), ..s },
                    room_fan_out(s, s.clients, id, room, line),
                )
            },
        }
    }
}

/// Every room's stored history holds at most `HISTORY_CAP` lines.
pub open spec fn history_within_cap(s: ChatState) -> bool {
    forall|i: int| 0 <= i < s.history.len() ==> (#[trigger] s.history[i]).1.len() <= HISTORY_CAP
}

/// The first position of `id` in `cs`, or the length of `cs`.
pub open spec fn id_pos_from(cs: Seq<usize>, id: usize, i: int) -> int
    decreases cs.len() - i,
{
    if i < 0 || i >= cs.len() {
        cs.len() as int
    } else if cs[i] == id {
        i
    } else {
        id_pos_from(cs, id, i + 1)
    }
}

/// The state after client `id` connects: it joins the end of the client list.
pub open spec fn connected(s: ChatState, id: usize) -> ChatState {
    ChatState { clients: s.clients.push(id), ..s }
}

/// The state after client `id` disconnects: its first entry in the client list
/// goes; its name, room and the history stay.
pub open spec fn disconnected(s: ChatState, id: usize) -> ChatState {
    let p = id_pos_from(s.clients, id, 0);
    if 0 <= p < s.clients.len() {
        ChatState { clients: s.clients.remove(p), ..s }
    } else {
        s
    }
}

} // verus!
