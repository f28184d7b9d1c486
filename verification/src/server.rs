//! The chat server: its state and what each event does to it.
use vstd::prelude::*;
use crate::chat::{
    Command, command_of, step, fan_out, room_fan_out, other_labels, join, who_reply, count_reply,
    debug_str, debug_text, plain_text, rooms_reply, value_pos_from, dm_target, dm_text, dm_sent, say_line,
    history_of, recent, sent_to, capped, HISTORY_CAP, REPLAY_LINES, ChatState, Sent, key_pos,
    key_pos_from, put, lookup, initial_state, label_of, room_of, id_pos_from, disconnected,
    connected,
};
use crate::text::{
    same_chars, chars_of, string_of, trim_chars, starts_with_chars, copy_range, split_once_chars,
};
use crate::number::decimal_string;

verus! {

/// One message to send: the receiving client and the text.
pub struct Delivery {
    pub to: usize,
    pub text: String,
}

impl View for Delivery {
    type V = Sent;

    open spec fn view(&self) -> Sent {
        (self.to, self.text@)
    }
}

/// The messages of `v`, as the model sees them.
pub open spec fn sent_view(v: Seq<Delivery>) -> Seq<Sent> {
    v.map_values(|d: Delivery| d@)
}

/// The texts of `v`.
pub open spec fn lines_view(v: Seq<String>) -> Seq<Seq<char>> {
    v.map_values(|s: String| s@)
}

/// An id-to-text table as the model sees it.
pub open spec fn pairs_view(v: Seq<(usize, String)>) -> Seq<(usize, Seq<char>)> {
    v.map_values(|e: (usize, String)| (e.0, e.1@))
}

/// The history table as the model sees it.
pub open spec fn history_view(v: Seq<(String, Vec<String>)>) -> Seq<(Seq<char>, Seq<Seq<char>>)> {
    v.map_values(|e: (String, Vec<String>)| (e.0@, lines_view(e.1@)))
}

/// The server: connected clients, names, rooms and per-room history.
pub struct ChatServer {
    clients: Vec<usize>,
    names: Vec<(usize, String)>,
    rooms: Vec<(usize, String)>,
    history: Vec<(String, Vec<String>)>,
    next_id: usize,
}

impl View for ChatServer {
    type V = ChatState;

    closed spec fn view(&self) -> ChatState {
        ChatState {
            clients: self.clients@,
            names: pairs_view(self.names@),
            rooms: pairs_view(self.rooms@),
            history: history_view(self.history@),
            next_id: self.next_id,
        }
    }
}

/// Formats `s` with `{:?}`, std's `Debug` for `str`. Claimed: the text depends on
/// `s` alone, and text of printable ASCII without `"` or `\` comes back in double
/// quotes, unescaped; what the escapes of other characters are is left unsaid.
#[verifier::external_body]
fn debug_string(s: &str) -> (r: String)
    ensures
        r@ == debug_str(s@),
        plain_text(s@) ==> r@ == seq!['"'] + s@ + seq!['"'],
{
    format!("{:?}", s)
}

/// `parts` joined with `sep` between neighbours.
fn join_strings(parts: &Vec<String>, sep: &str) -> (r: String)
    ensures
        r@ == join(lines_view(parts@), sep@),
{
    let ghost ps = lines_view(parts@);
    let mut r = String::new();
    let mut i: usize = 0;
    while i < parts.len()
        invariant
            i <= parts@.len(),
            ps == lines_view(parts@),
            r@ == join(ps.take(i as int), sep@),
        decreases parts.len() - i,
    {
        assert(ps.take(i + 1).drop_last() =~= ps.take(i as int));
        assert(ps.take(i + 1).last() == parts@[i as int]@);
        if i > 0 {
            r.append(sep);
        } else {
            assert(ps.take(1)[0] == parts@[0]@);
        }
        r.append(parts[i].as_str());
        i = i + 1;
    }
    assert(ps.take(parts@.len() as int) =~= ps);
    r
}

/// The position of key `k` in the table `t`.
fn find_key(t: &Vec<(usize, String)>, k: usize) -> (r: usize)
    ensures
        r == key_pos(pairs_view(t@), k),
        r <= t@.len(),
{
    let ghost m = pairs_view(t@);
    let mut i: usize = 0;
    while i < t.len()
        invariant
            i <= t@.len(),
            m == pairs_view(t@),
            key_pos(m, k) == key_pos_from(m, k, i as int),
        decreases t.len() - i,
    {
        if t[i].0 == k {
            assert(m[i as int].0 == k);
            return i;
        }
        assert(m[i as int].0 != k);
        i = i + 1;
    }
    i
}

/// Stores `v` under `k` in the table `t`.
fn put_key(t: &mut Vec<(usize, String)>, k: usize, v: String)
    ensures
        pairs_view(final(t)@) == put(pairs_view(old(t)@), k, v@),
{
    let p = find_key(t, k);
    if p < t.len() {
        t.set(p, (k, v));
        assert(pairs_view(t@) =~= pairs_view(old(t)@).update(p as int, (k, v@)));
    } else {
        t.push((k, v));
        assert(pairs_view(t@) =~= pairs_view(old(t)@).push((k, v@)));
    }
}

/// The text stored under `k` in `t`, if any.
fn get_key(t: &Vec<(usize, String)>, k: usize) -> (r: Option<String>)
    ensures
        match r {
            Some(v) => lookup(pairs_view(t@), k) == Some(v@),
            None => lookup(pairs_view(t@), k) is None,
        },
{
    let p = find_key(t, k);
    if p < t.len() {
        Some(t[p].1.clone())
    } else {
        None
    }
}

/// What a text line asks for, with its arguments.
pub enum ChatCommand {
    Who,
    Count,
    Name(String),
    Dm(String, String),
    Ping,
    Join(String),
    GetRooms,
    Say(String),
}

impl View for ChatCommand {
    type V = Command;

    open spec fn view(&self) -> Command {
        match self {
            ChatCommand::Who => Command::Who,
            ChatCommand::Count => Command::Count,
            ChatCommand::Name(n) => Command::Name(n@),
            ChatCommand::Dm(t, b) => Command::Dm(t@, b@),
            ChatCommand::Ping => Command::Ping,
            ChatCommand::Join(r) => Command::Join(r@),
            ChatCommand::GetRooms => Command::GetRooms,
            ChatCommand::Say(t) => Command::Say(t@),
        }
    }
}

/// The trimmed rest of `t` after its first `k` characters.
fn trimmed_rest(t: &Vec<char>, k: usize) -> (r: String)
    requires
        k <= t@.len(),
    ensures
        r@ == crate::text::trim(t@.skip(k as int)),
{
    let rest = copy_range(t.as_slice(), k, t.len());
    assert(rest@ =~= t@.skip(k as int));
    let tr = trim_chars(rest.as_slice());
    string_of(tr.as_slice())
}

/// Reads the command that a line carries, as the server does (for lines that
/// are not JSON documents).
pub fn parse_command(text: &str) -> (r: ChatCommand)
    ensures
        r@ == command_of(text@),
{
    let raw = chars_of(text);
    let t = trim_chars(raw.as_slice());
    let who = chars_of("/who");
    let count = chars_of("/count");
    let name = chars_of("/name ");
    let dm = chars_of("/dm ");
    let ping = chars_of("/ping");
    let join = chars_of("/join ");
    let get_rooms = chars_of("/get_rooms");
    if same_chars(t.as_slice(), who.as_slice()) {
        ChatCommand::Who
    } else if same_chars(t.as_slice(), count.as_slice()) {
        ChatCommand::Count
    } else if starts_with_chars(t.as_slice(), name.as_slice()) {
        ChatCommand::Name(trimmed_rest(&t, name.len()))
    } else if starts_with_chars(t.as_slice(), dm.as_slice()) {
        let rest = copy_range(t.as_slice(), dm.len(), t.len());
        assert(rest@ =~= t@.skip(dm@.len() as int));
        let rest = trim_chars(rest.as_slice());
        let (target, body) = split_once_chars(rest.as_slice(), ' ');
        let target = trim_chars(target.as_slice());
        let body = match body {
            Some(b) => trim_chars(b.as_slice()),
            None => Vec::new(),
        };
        assert(body@ == match crate::text::split_once_char(rest@, ' ').1 {
            Some(b) => crate::text::trim(b),
            None => Seq::<char>::empty(),
        });
        ChatCommand::Dm(string_of(target.as_slice()), string_of(body.as_slice()))
    } else if same_chars(t.as_slice(), ping.as_slice()) {
        ChatCommand::Ping
    } else if starts_with_chars(t.as_slice(), join.as_slice()) {
        ChatCommand::Join(trimmed_rest(&t, join.len()))
    } else if same_chars(t.as_slice(), get_rooms.as_slice()) {
        ChatCommand::GetRooms
    } else {
        ChatCommand::Say(string_of(t.as_slice()))
    }
}

impl ChatServer {
    /// A server with no clients; the first accepted connection gets id 1.
    pub fn new() -> (r: ChatServer)
        ensures
            r@ == initial_state(),
    {
        let r = ChatServer {
            clients: Vec::new(),
            names: Vec::new(),
            rooms: Vec::new(),
            history: Vec::new(),
            next_id: 1,
        };
        assert(r@.names =~= Seq::<(usize, Seq<char>)>::empty());
        assert(r@.rooms =~= Seq::<(usize, Seq<char>)>::empty());
        assert(r@.history =~= Seq::<(Seq<char>, Seq<Seq<char>>)>::empty());
        r
    }

    /// Hands out the id of a newly accepted connection. Ids count up from 1 and
    /// wrap around at the top of `usize`, as an atomic `fetch_add` does.
    pub fn accept(&mut self) -> (id: usize)
        ensures
            id == old(self)@.next_id,
            final(self)@ == (ChatState {
                next_id: if old(self)@.next_id == usize::MAX {
                    0
                } else {
                    (old(self)@.next_id + 1) as usize
                },
                ..old(self)@
            }),
    {
        let id = self.next_id;
        self.next_id = if id == usize::MAX {
            0
        } else {
            id + 1
        };
        id
    }

    /// Registers client `id` once its handshake has completed.
    pub fn connect(&mut self, id: usize)
        ensures
            final(self)@ == connected(old(self)@, id),
    {
        self.clients.push(id);
    }

    /// Removes client `id` when its connection ends. Its name and room stay on
    /// record.
    pub fn disconnect(&mut self, id: usize)
        ensures
            final(self)@ == disconnected(old(self)@, id),
    {
        let ghost cs = self.clients@;
        let ghost s0 = self@;
        let mut i: usize = 0;
        while i < self.clients.len()
            invariant
                i <= self.clients@.len(),
                self.clients@ == cs,
                self@ == s0,
                s0 == old(self)@,
                id_pos_from(cs, id, 0) == id_pos_from(cs, id, i as int),
            decreases self.clients.len() - i,
        {
            if self.clients[i] == id {
                self.clients.remove(i);
                return;
            }
            i = i + 1;
        }
    }

    /// Whether client `id` is connected.
    pub fn is_connected(&self, id: usize) -> (r: bool)
        ensures
            r == self@.clients.contains(id),
    {
        let mut i: usize = 0;
        while i < self.clients.len()
            invariant
                i <= self@.clients.len(),
                forall|k: int| 0 <= k < i ==> self@.clients[k] != id,
            decreases self.clients.len() - i,
        {
            if self.clients[i] == id {
                assert(self@.clients[i as int] == id);
                return true;
            }
            i = i + 1;
        }
        false
    }

    /// The number of connected clients.
    pub fn client_count(&self) -> (r: usize)
        ensures
            r == self@.clients.len(),
    {
        self.clients.len()
    }

    /// The label of client `cid`: its name, or `user<id>`.
    fn label(&self, cid: usize) -> (r: String)
        ensures
            r@ == label_of(self@, cid),
    {
        match get_key(&self.names, cid) {
            Some(n) => n,
            None => {
                let mut r = String::from_str("user");
                let d = decimal_string(cid as u128);
                r.append(d.as_str());
                r
            },
        }
    }

    /// The room of client `cid`.
    fn room(&self, cid: usize) -> (r: String)
        ensures
            r@ == room_of(self@, cid),
    {
        match get_key(&self.rooms, cid) {
            Some(r) => r,
            None => String::from_str("lobby"),
        }
    }

    /// `msg` for every connected client other than `id`.
    fn to_others(&self, id: usize, msg: &String) -> (r: Vec<Delivery>)
        ensures
            sent_view(r@) == fan_out(self@.clients, id, msg@),
    {
        let ghost cs = self@.clients;
        let mut out: Vec<Delivery> = Vec::new();
        let mut i: usize = 0;
        while i < self.clients.len()
            invariant
                i <= cs.len(),
                cs == self@.clients,
                sent_view(out@) == fan_out(cs.take(i as int), id, msg@),
            decreases self.clients.len() - i,
        {
            let c = self.clients[i];
            assert(cs.take(i + 1).drop_last() =~= cs.take(i as int));
            assert(cs.take(i + 1).last() == c);
            if c != id {
                let ghost before = out@;
                out.push(Delivery { to: c, text: msg.clone() });
                assert(sent_view(out@) =~= sent_view(before).push((c, msg@)));
            }
            i = i + 1;
        }
        assert(cs.take(cs.len() as int) =~= cs);
        out
    }

    /// `msg` for every connected client other than `id` whose room is `room`.
    fn to_room(&self, id: usize, room: &String, msg: &String) -> (r: Vec<Delivery>)
        ensures
            sent_view(r@) == room_fan_out(self@, self@.clients, id, room@, msg@),
    {
        let ghost cs = self@.clients;
        let mut out: Vec<Delivery> = Vec::new();
        let mut i: usize = 0;
        while i < self.clients.len()
            invariant
                i <= cs.len(),
                cs == self@.clients,
                sent_view(out@) == room_fan_out(self@, cs.take(i as int), id, room@, msg@),
            decreases self.clients.len() - i,
        {
            let c = self.clients[i];
            assert(cs.take(i + 1).drop_last() =~= cs.take(i as int));
            assert(cs.take(i + 1).last() == c);
            if c != id {
                let other = self.room(c);
                if other == *room {
                    let ghost before = out@;
                    out.push(Delivery { to: c, text: msg.clone() });
                    assert(sent_view(out@) =~= sent_view(before).push((c, msg@)));
                }
            }
            i = i + 1;
        }
        assert(cs.take(cs.len() as int) =~= cs);
        out
    }

    /// The answer to `/who` for client `id`.
    fn who(&self, id: usize) -> (r: String)
        ensures
            r@ == who_reply(self@, id),
    {
        let ghost cs = self@.clients;
        let mut labels: Vec<String> = Vec::new();
        let mut i: usize = 0;
        while i < self.clients.len()
            invariant
                i <= cs.len(),
                cs == self@.clients,
                lines_view(labels@) == other_labels(self@, cs.take(i as int), id),
            decreases self.clients.len() - i,
        {
            let c = self.clients[i];
            assert(cs.take(i + 1).drop_last() =~= cs.take(i as int));
            assert(cs.take(i + 1).last() == c);
            if c != id {
                let l = self.label(c);
                let ghost before = labels@;
                labels.push(l);
                assert(lines_view(labels@) =~= lines_view(before).push(label_of(self@, c)));
            }
            i = i + 1;
        }
        assert(cs.take(cs.len() as int) =~= cs);
        if labels.len() == 0 {
            String::from_str("No one")
        } else {
            let mut r = String::from_str("Online: ");
            let j = join_strings(&labels, ", ");
            r.append(j.as_str());
            r
        }
    }

    /// The answer to `/count`.
    fn count(&self) -> (r: String)
        ensures
            r@ == count_reply(self@),
    {
        let mut r = String::from_str("Total active clients: ");
        let d = decimal_string(self.clients.len() as u128);
        r.append(d.as_str());
        r
    }

    /// The answer to `/get_rooms`.
    fn list_rooms(&self) -> (r: String)
        ensures
            r@ == rooms_reply(self@),
    {
        let ghost items = self@.rooms.map_values(|e: (usize, Seq<char>)| e.1).map_values(
            |i: Seq<char>| debug_text(i),
        );
        let mut quoted: Vec<String> = Vec::new();
        let mut i: usize = 0;
        while i < self.rooms.len()
            invariant
                i <= self.rooms@.len(),
                items.len() == self.rooms@.len(),
                items == self@.rooms.map_values(|e: (usize, Seq<char>)| e.1).map_values(
                    |i: Seq<char>| debug_text(i),
                ),
                lines_view(quoted@) == items.take(i as int),
            decreases self.rooms.len() - i,
        {
            let q = debug_string(self.rooms[i].1.as_str());
            let ghost before = quoted@;
            quoted.push(q);
            assert(items[i as int] == debug_text(self.rooms@[i as int].1@));
            assert(q@ == debug_text(self.rooms@[i as int].1@));
            assert(lines_view(quoted@) =~= lines_view(before).push(q@));
            assert(items.take(i + 1) =~= items.take(i as int).push(items[i as int]));
            i = i + 1;
        }
        assert(items.take(items.len() as int) =~= items);
        let mut r = String::from_str("Active rooms: ");
        r.append("[");
        let j = join_strings(&quoted, ", ");
        r.append(j.as_str());
        r.append("]");
        r
    }

    /// The position of `room` in the history table.
    fn find_history(&self, room: &String) -> (r: usize)
        ensures
            r == key_pos(self@.history, room@),
            r <= self@.history.len(),
            r < self@.history.len() ==> self@.history[r as int].0 == room@,
    {
        let ghost m = self@.history;
        let mut i: usize = 0;
        while i < self.history.len()
            invariant
                i <= m.len(),
                m == self@.history,
                key_pos(m, room@) == key_pos_from(m, room@, i as int),
            decreases self.history.len() - i,
        {
            if self.history[i].0 == *room {
                assert(m[i as int].0 == room@);
                return i;
            }
            assert(m[i as int].0 != room@);
            i = i + 1;
        }
        i
    }

    /// The recent history of `room`, each line sent to `to`.
    fn replay(&self, to: usize, room: &String) -> (r: Vec<Delivery>)
        ensures
            sent_view(r@) == sent_to(to, recent(history_of(self@, room@))),
    {
        let p = self.find_history(room);
        let mut out: Vec<Delivery> = Vec::new();
        if p < self.history.len() {
            let lines = &self.history[p].1;
            let ghost h = lines_view(lines@);
            assert(history_of(self@, room@) == h);
            let start: usize = if lines.len() > REPLAY_LINES {
                lines.len() - REPLAY_LINES
            } else {
                0
            };
            let ghost rh = recent(h);
            assert(rh =~= h.skip(start as int));
            let mut i: usize = start;
            while i < lines.len()
                invariant
                    start <= i <= lines@.len(),
                    h == lines_view(lines@),
                    rh == h.skip(start as int),
                    sent_view(out@) == sent_to(to, rh.take(i - start)),
                decreases lines.len() - i,
            {
                let ghost before = out@;
                out.push(Delivery { to, text: lines[i].clone() });
                assert(rh.take(i + 1 - start) =~= rh.take(i - start).push(lines@[i as int]@));
                assert(sent_to(to, rh.take(i - start).push(lines@[i as int]@)) =~= sent_to(
                    to,
                    rh.take(i - start),
                ).push((to, lines@[i as int]@)));
                assert(sent_view(out@) =~= sent_view(before).push((to, lines@[i as int]@)));
                i = i + 1;
            }
            assert(rh.take(lines@.len() - start) =~= rh);
        } else {
            assert(sent_view(out@) =~= sent_to(to, recent(history_of(self@, room@))));
        }
        out
    }

    /// The client that a `/dm` to `name` goes to: the first one recorded with
    /// that name, whether or not it is still connected.
    pub fn client_named(&self, name: &str) -> (r: Option<usize>)
        ensures
            r == dm_target(self@, name@),
    {
        let ghost m = self@.names;
        let wanted = String::from_str(name);
        let mut i: usize = 0;
        while i < self.names.len()
            invariant
                i <= m.len(),
                m == self@.names,
                wanted@ == name@,
                value_pos_from(m, name@, 0) == value_pos_from(m, name@, i as int),
            decreases self.names.len() - i,
        {
            if self.names[i].1 == wanted {
                assert(m[i as int].1 == name@);
                return Some(self.names[i].0);
            }
            assert(m[i as int].1 != name@);
            i = i + 1;
        }
        None
    }

    /// What a `/dm` to `target` with `body` from `id` sends.
    fn direct_message(&self, id: usize, target: &String, body: &String) -> (r: Vec<Delivery>)
        ensures
            sent_view(r@) == dm_sent(self@, id, target@, body@),
    {
        let mut out: Vec<Delivery> = Vec::new();
        let found = self.client_named(target.as_str());
        if let Some(t) = found {
            let mut j: usize = 0;
            while j < self.clients.len()
                invariant
                    j <= self@.clients.len(),
                    forall|k: int| 0 <= k < j ==> self@.clients[k] != t,
                    out@ == Seq::<Delivery>::empty(),
                    dm_target(self@, target@) == Some(t),
                decreases self.clients.len() - j,
            {
                if self.clients[j] == t {
                    let mut text = String::from_str("(DM from ");
                    let l = self.label(id);
                    text.append(l.as_str());
                    text.append(") ");
                    text.append(body.as_str());
                    assert(text@ == dm_text(self@, id, body@));
                    out.push(Delivery { to: t, text });
                    assert(self@.clients.contains(t));
                    assert(sent_view(out@) =~= seq![(t, dm_text(self@, id, body@))]);
                    return out;
                }
                j = j + 1;
            }
            assert(!self@.clients.contains(t));
        }
        assert(sent_view(out@) =~= Seq::<Sent>::empty());
        out
    }

    /// Stores `line` in the history of `room`, dropping the oldest line beyond
    /// the cap.
    fn record(&mut self, room: String, line: String)
        ensures
            final(self)@ == (ChatState {
                history: put(
                    old(self)@.history,
                    room@,
                    capped(history_of(old(self)@, room@).push(line@)),
                ),
                ..old(self)@
            }),
    {
        let p = self.find_history(&room);
        let ghost h0 = self.history@;
        if p < self.history.len() {
            let (k, mut lines) = self.history.remove(p);
            assert(k@ == room@);
            assert(lines_view(lines@) == history_of(old(self)@, room@));
            let ghost l0 = lines_view(lines@);
            lines.push(line);
            assert(lines_view(lines@) =~= l0.push(line@));
            if lines.len() > HISTORY_CAP {
                let ghost l1 = lines_view(lines@);
                lines.remove(0);
                assert(lines_view(lines@) =~= l1.drop_first());
            }
            self.history.insert(p, (k, lines));
            assert(self.history@ =~= h0.update(p as int, self.history@[p as int]));
            assert(history_view(self.history@) =~= history_view(h0).update(
                p as int,
                (room@, capped(history_of(old(self)@, room@).push(line@))),
            ));
        } else {
            let mut lines: Vec<String> = Vec::new();
            lines.push(line);
            assert(lines_view(lines@) =~= seq![line@]);
            assert(history_of(old(self)@, room@) == Seq::<Seq<char>>::empty());
            assert(capped(Seq::<Seq<char>>::empty().push(line@)) =~= seq![line@]);
            self.history.push((room, lines));
            assert(history_view(self.history@) =~= history_view(h0).push(
                (room@, capped(history_of(old(self)@, room@).push(line@))),
            ));
        }
    }

    /// Handles the text line `text` from client `id`; `is_json` tells whether the
    /// line is a JSON document. Returns the messages to send, in order.
    pub fn handle_message(&mut self, id: usize, text: &str, is_json: bool) -> (r: Vec<Delivery>)
        ensures
            (final(self)@, sent_view(r@)) == step(old(self)@, id, text@, is_json),
    {
        if is_json {
            let msg = String::from_str(text);
            return self.to_others(id, &msg);
        }
        let cmd = parse_command(text);
        match cmd {
            ChatCommand::Who => {
                let mut out = Vec::new();
                out.push(Delivery { to: id, text: self.who(id) });
                assert(sent_view(out@) =~= seq![(id, who_reply(self@, id))]);
                out
            },
            ChatCommand::Count => {
                let mut out = Vec::new();
                out.push(Delivery { to: id, text: self.count() });
                assert(sent_view(out@) =~= seq![(id, count_reply(self@))]);
                out
            },
            ChatCommand::Name(n) => {
                let lobby = String::from_str("lobby");
                let mut out = self.replay(id, &lobby);
                let mut reply = String::from_str("name set to ");
                reply.append(n.as_str());
                let ghost before = out@;
                out.push(Delivery { to: id, text: reply });
                assert(sent_view(out@) =~= sent_view(before).push((id, "name set to "@ + n@)));
                put_key(&mut self.rooms, id, lobby);
                if !n.as_str().is_empty() {
                    put_key(&mut self.names, id, n);
                }
                out
            },
            ChatCommand::Dm(target, body) => self.direct_message(id, &target, &body),
            ChatCommand::Ping => {
                let mut out = Vec::new();
                out.push(Delivery { to: id, text: String::from_str("pong") });
                assert(sent_view(out@) =~= seq![(id, "pong"@)]);
                out
            },
            ChatCommand::Join(room) => {
                let mut out: Vec<Delivery> = Vec::new();
                if room.as_str().is_empty() {
                    assert(sent_view(out@) =~= Seq::<Sent>::empty());
                    return out;
                }
                let mut reply = String::from_str("Joined room: ");
                reply.append(room.as_str());
                out.push(Delivery { to: id, text: reply });
                let mut rest = self.replay(id, &room);
                let ghost first = sent_view(out@);
                let ghost tail = sent_view(rest@);
                out.append(&mut rest);
                assert(sent_view(out@) =~= first + tail);
                put_key(&mut self.rooms, id, room);
                out
            },
            ChatCommand::GetRooms => {
                let mut out = Vec::new();
                out.push(Delivery { to: id, text: self.list_rooms() });
                assert(sent_view(out@) =~= seq![(id, rooms_reply(self@))]);
                out
            },
            ChatCommand::Say(t) => {
                let room = self.room(id);
                let mut line = self.label(id);
                line.append(": ");
                line.append(t.as_str());
                assert(line@ == say_line(self@, id, t@));
                let out = self.to_room(id, &room, &line);
                self.record(room, line);
                out
            },
        }
    }

    /// Handles the text line `text` from client `id`: a JSON document goes to
    /// every other client, anything else is read as a command. Returns the
    /// messages to send, in order.
    pub fn handle_text(&mut self, id: usize, text: &str) -> (r: Vec<Delivery>)
        ensures
            (final(self)@, sent_view(r@)) == step(old(self)@, id, text@, crate::json::parses_as_json_value(text@)),
            crate::text::trim(text@).len() > 0 && crate::text::trim(text@)[0] == '/' ==> (final(self)@, sent_view(r@))
                == step(old(self)@, id, text@, false),
    {
        let is_json = crate::json::is_json_value(text);
        proof {
            if crate::text::trim(text@).len() > 0 && crate::text::trim(text@)[0] == '/' {
                crate::json::lemma_slash_line_is_not_json(text@);
            }
        }
        self.handle_message(id, text, is_json)
    }
}

} // verus!
