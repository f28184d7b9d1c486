//! Properties of the chat server that hold across lines, states and commands.
use vstd::prelude::*;
use crate::chat::{
    ChatState, Command, Sent, command_of, step, key_pos, key_pos_from, lookup, put, fan_out,
    room_fan_out, room_of, say_line, history_of, capped, history_within_cap, HISTORY_CAP,
    initial_state, disconnected, connected, id_pos_from, label_of, recent, sent_to, who_reply, count_reply,
    rooms_reply, dm_sent, dm_target, dm_text, value_pos_from, REPLAY_LINES, other_labels, join,
};
use crate::number::decimal;
use crate::text::{
    trim, trim_start, trim_end, is_space, starts_with, contains, occurs_at, find_from,
    lemma_find_from_none,
};

verus! {

/// A position that `key_pos_from` finds lies in range and holds the key.
pub proof fn lemma_key_pos_from<K, V>(t: Seq<(K, V)>, k: K, i: int)
    requires
        0 <= i <= t.len(),
    ensures
        i <= key_pos_from(t, k, i) <= t.len(),
        key_pos_from(t, k, i) < t.len() ==> t[key_pos_from(t, k, i)].0 == k,
        forall|j: int| i <= j < key_pos_from(t, k, i) ==> t[j].0 != k,
    decreases t.len() - i,
{
    if i < t.len() && t[i].0 != k {
        lemma_key_pos_from(t, k, i + 1);
    }
}

/// The position of a key is the first one that holds it.
pub proof fn lemma_key_pos_is_first<K, V>(t: Seq<(K, V)>, k: K, p: int)
    requires
        0 <= p <= t.len(),
        p < t.len() ==> t[p].0 == k,
        forall|j: int| 0 <= j < p ==> t[j].0 != k,
    ensures
        key_pos(t, k) == p,
{
    lemma_key_pos_from(t, k, 0);
    let q = key_pos(t, k);
    if q < p {
        assert(t[q].0 == k);
    } else if p < q {
        assert(t[p].0 != k);
    }
}

/// Reading back after storing: the stored key gives the new value, every other
/// key what it gave before.
pub proof fn lemma_lookup_put<K, V>(t: Seq<(K, V)>, k: K, v: V, k2: K)
    ensures
        lookup(put(t, k, v), k2) == if k2 == k {
            Some(v)
        } else {
            lookup(t, k2)
        },
{
    lemma_key_pos_from(t, k, 0);
    lemma_key_pos_from(t, k2, 0);
    let p = key_pos(t, k);
    let q = key_pos(t, k2);
    let t2 = put(t, k, v);
    if p < t.len() {
        assert(t2.len() == t.len());
        if k2 == k {
            lemma_key_pos_is_first(t2, k2, p);
        } else {
            assert forall|j: int| 0 <= j < q implies t2[j].0 != k2 by {
                if j == p {
                } else {
                    assert(t2[j] == t[j]);
                }
            }
            if q < t.len() {
                assert(q != p);
                assert(t2[q] == t[q]);
            }
            lemma_key_pos_is_first(t2, k2, q);
        }
    } else {
        assert(t2.len() == t.len() + 1);
        if k2 == k {
            assert forall|j: int| 0 <= j < t.len() implies t2[j].0 != k2 by {
                assert(t2[j] == t[j]);
            }
            lemma_key_pos_is_first(t2, k2, t.len() as int);
        } else {
            if q < t.len() {
                assert forall|j: int| 0 <= j < q implies t2[j].0 != k2 by {
                    assert(t2[j] == t[j]);
                }
                assert(t2[q] == t[q]);
                lemma_key_pos_is_first(t2, k2, q);
            } else {
                assert forall|j: int| 0 <= j < t2.len() implies t2[j].0 != k2 by {
                    if j < t.len() {
                        assert(t2[j] == t[j]);
                    }
                }
                lemma_key_pos_is_first(t2, k2, t2.len() as int);
            }
        }
    }
}

/// Every message of a room fan-out goes to another listed client in that room,
/// and every such client gets exactly the message.
pub proof fn lemma_room_fan_out(s: ChatState, cs: Seq<usize>, id: usize, room: Seq<char>, msg: Seq<char>)
    ensures
        forall|j: int|
            0 <= j < room_fan_out(s, cs, id, room, msg).len() ==> {
                let d = #[trigger] room_fan_out(s, cs, id, room, msg)[j];
                &&& cs.contains(d.0)
                &&& d.0 != id
                &&& room_of(s, d.0) == room
                &&& d.1 == msg
            },
        forall|c: usize|
            #![trigger cs.contains(c)]
            cs.contains(c) && c != id && room_of(s, c) == room ==> exists|j: int|
                0 <= j < room_fan_out(s, cs, id, room, msg).len() && room_fan_out(
                    s,
                    cs,
                    id,
                    room,
                    msg,
                )[j].0 == c,
    decreases cs.len(),
{
    if cs.len() > 0 {
        let pre = cs.drop_last();
        lemma_room_fan_out(s, pre, id, room, msg);
        let prev = room_fan_out(s, pre, id, room, msg);
        let out = room_fan_out(s, cs, id, room, msg);
        assert forall|j: int| 0 <= j < out.len() implies {
            let d = #[trigger] out[j];
            &&& cs.contains(d.0)
            &&& d.0 != id
            &&& room_of(s, d.0) == room
            &&& d.1 == msg
        } by {
            if j < prev.len() {
                assert(out[j] == prev[j]);
                let x = out[j].0;
                assert(pre.contains(x));
                let w = choose|w: int| 0 <= w < pre.len() && pre[w] == x;
                assert(cs[w] == x);
            } else {
                assert(cs[cs.len() - 1] == cs.last());
            }
        }
        assert forall|c: usize|
            #![trigger cs.contains(c)]
            cs.contains(c) && c != id && room_of(s, c) == room implies exists|j: int|
                0 <= j < out.len() && out[j].0 == c by {
            let w = choose|w: int| 0 <= w < cs.len() && cs[w] == c;
            if w < cs.len() - 1 {
                assert(pre[w] == c);
                assert(pre.contains(c));
                let j = choose|j: int| 0 <= j < prev.len() && prev[j].0 == c;
                assert(out[j] == prev[j]);
            } else {
                assert(out[prev.len() as int].0 == c);
            }
        }
    }
}

/// Every message of a fan-out goes to another listed client, and every other
/// listed client gets exactly the message.
pub proof fn lemma_fan_out(cs: Seq<usize>, id: usize, msg: Seq<char>)
    ensures
        forall|j: int|
            0 <= j < fan_out(cs, id, msg).len() ==> {
                let d = #[trigger] fan_out(cs, id, msg)[j];
                &&& cs.contains(d.0)
                &&& d.0 != id
                &&& d.1 == msg
            },
        forall|c: usize|
            #![trigger cs.contains(c)]
            cs.contains(c) && c != id ==> exists|j: int|
                0 <= j < fan_out(cs, id, msg).len() && fan_out(cs, id, msg)[j].0 == c,
    decreases cs.len(),
{
    if cs.len() > 0 {
        let pre = cs.drop_last();
        lemma_fan_out(pre, id, msg);
        let prev = fan_out(pre, id, msg);
        let out = fan_out(cs, id, msg);
        assert forall|j: int| 0 <= j < out.len() implies {
            let d = #[trigger] out[j];
            &&& cs.contains(d.0)
            &&& d.0 != id
            &&& d.1 == msg
        } by {
            if j < prev.len() {
                assert(out[j] == prev[j]);
                let x = out[j].0;
                assert(pre.contains(x));
                let w = choose|w: int| 0 <= w < pre.len() && pre[w] == x;
                assert(cs[w] == x);
            } else {
                assert(cs[cs.len() - 1] == cs.last());
            }
        }
        assert forall|c: usize| #![trigger cs.contains(c)] cs.contains(c) && c != id implies exists|j: int|
            0 <= j < out.len() && out[j].0 == c by {
            let w = choose|w: int| 0 <= w < cs.len() && cs[w] == c;
            if w < cs.len() - 1 {
                assert(pre[w] == c);
                assert(pre.contains(c));
                let j = choose|j: int| 0 <= j < prev.len() && prev[j].0 == c;
                assert(out[j] == prev[j]);
            } else {
                assert(out[prev.len() as int].0 == c);
            }
        }
    }
}

/// A chat line stays in its room: it goes to every other connected client in
/// the sender's room and to nobody else, and is stored in that room's history.
pub proof fn law_chat_stays_in_room(s: ChatState, id: usize, text: Seq<char>)
    requires
        command_of(text) is Say,
    ensures
        ({
            let (s2, out) = step(s, id, text, false);
            let room = room_of(s, id);
            let line = say_line(s, id, command_of(text)->Say_0);
            &&& forall|j: int|
                0 <= j < out.len() ==> {
                    let d = #[trigger] out[j];
                    &&& s.clients.contains(d.0)
                    &&& d.0 != id
                    &&& room_of(s, d.0) == room
                    &&& d.1 == line
                }
            &&& forall|c: usize|
                #![trigger s.clients.contains(c)]
                s.clients.contains(c) && c != id && room_of(s, c) == room ==> exists|j: int|
                    0 <= j < out.len() && out[j].0 == c
            &&& history_of(s2, room) == capped(history_of(s, room).push(line))
            &&& s2.clients == s.clients && s2.names == s.names && s2.rooms == s.rooms
        }),
{
    let t = command_of(text)->Say_0;
    let room = room_of(s, id);
    let line = say_line(s, id, t);
    lemma_room_fan_out(s, s.clients, id, room, line);
    lemma_lookup_put(s.history, room, capped(history_of(s, room).push(line)), room);
    let out = step(s, id, text, false).1;
    assert(out == room_fan_out(s, s.clients, id, room, line));
    assert forall|c: usize|
        #![trigger s.clients.contains(c)]
        s.clients.contains(c) && c != id && room_of(s, c) == room implies exists|j: int|
            0 <= j < out.len() && out[j].0 == c by {
        let j = choose|j: int|
            0 <= j < room_fan_out(s, s.clients, id, room, line).len() && room_fan_out(
                s,
                s.clients,
                id,
                room,
                line,
            )[j].0 == c;
        assert(out[j].0 == c);
    }
}

/// A JSON document goes, unchanged, to every other connected client whatever
/// its room, and to nobody else; the state stays as it was.
pub proof fn law_json_reaches_all_others(s: ChatState, id: usize, text: Seq<char>)
    ensures
        ({
            let (s2, out) = step(s, id, text, true);
            &&& s2 == s
            &&& forall|j: int|
                0 <= j < out.len() ==> {
                    let d = #[trigger] out[j];
                    &&& s.clients.contains(d.0)
                    &&& d.0 != id
                    &&& d.1 == text
                }
            &&& forall|c: usize|
                #![trigger s.clients.contains(c)]
                s.clients.contains(c) && c != id ==> exists|j: int| 0 <= j < out.len() && out[j].0 == c
        }),
{
    lemma_fan_out(s.clients, id, text);
    let out = step(s, id, text, true).1;
    assert(out == fan_out(s.clients, id, text));
    assert forall|c: usize| #![trigger s.clients.contains(c)] s.clients.contains(c) && c != id implies exists|j: int|
        0 <= j < out.len() && out[j].0 == c by {
        let j = choose|j: int|
            0 <= j < fan_out(s.clients, id, text).len() && fan_out(s.clients, id, text)[j].0 == c;
        assert(out[j].0 == c);
    }
}

/// No room ever stores more than `HISTORY_CAP` lines: the initial state holds
/// none, and no line or disconnection takes a room past the cap.
pub proof fn law_history_within_cap(s: ChatState, id: usize, text: Seq<char>, is_json: bool)
    ensures
        history_within_cap(initial_state()),
        history_within_cap(s) ==> history_within_cap(step(s, id, text, is_json).0),
        history_within_cap(s) ==> history_within_cap(disconnected(s, id)),
{
    if history_within_cap(s) && !is_json {
        if let Command::Say(t) = command_of(text) {
            let room = room_of(s, id);
            let h = history_of(s, room);
            let line = say_line(s, id, t);
            lemma_key_pos_from(s.history, room, 0);
            let p = key_pos(s.history, room);
            if p < s.history.len() {
                assert(h == s.history[p].1);
            }
            assert(h.len() <= HISTORY_CAP);
            let s2 = step(s, id, text, is_json).0;
            assert forall|i: int| 0 <= i < s2.history.len() implies (#[trigger] s2.history[i]).1.len()
                <= HISTORY_CAP by {
                if i < s.history.len() && i != p {
                    assert(s2.history[i] == s.history[i]);
                }
            }
        }
    }
}

/// Questions change nothing: `/who`, `/count`, `/ping` and `/get_rooms` are
/// answered to the asker alone, and `/dm` and an empty `/join` leave the state
/// as it was.
pub proof fn law_queries_change_nothing(s: ChatState, id: usize, text: Seq<char>)
    ensures
        command_of(text) is Who ==> step(s, id, text, false) == (s, seq![(id, who_reply(s, id))]),
        command_of(text) is Count ==> step(s, id, text, false) == (s, seq![(id, count_reply(s))]),
        command_of(text) is Ping ==> step(s, id, text, false) == (s, seq![(id, "pong"@)]),
        command_of(text) is GetRooms ==> step(s, id, text, false) == (s, seq![(id, rooms_reply(s))]),
        command_of(text) is Dm ==> step(s, id, text, false).0 == s,
        command_of(text) matches Command::Join(r) && r.len() == 0 ==> step(s, id, text, false) == (
            s,
            Seq::<Sent>::empty(),
        ),
{
}

/// `/ping`, with any white space round it, is answered `pong`.
pub proof fn law_ping_answers_pong(s: ChatState, id: usize, text: Seq<char>)
    requires
        trim(text) == "/ping"@,
    ensures
        step(s, id, text, false) == (s, seq![(id, "pong"@)]),
{
    reveal_strlit("/ping");
    reveal_strlit("/who");
    reveal_strlit("/count");
    reveal_strlit("/name ");
    reveal_strlit("/dm ");
    assert(trim(text) != "/who"@);
    assert(trim(text) != "/count"@);
    assert(trim(text).take(4) != "/dm "@) by {
        assert(trim(text).take(4)[1] != "/dm "@[1]);
    }
    assert(command_of(text) is Ping);
}

/// `/name` moves the client back to the lobby and, with a non-empty name, sets
/// the name it is shown by; nobody else's name or room changes.
pub proof fn law_rename_returns_to_lobby(s: ChatState, id: usize, text: Seq<char>, other: usize)
    requires
        command_of(text) is Name,
    ensures
        ({
            let n = command_of(text)->Name_0;
            let s2 = step(s, id, text, false).0;
            &&& room_of(s2, id) == "lobby"@
            &&& n.len() > 0 ==> label_of(s2, id) == n
            &&& n.len() == 0 ==> label_of(s2, id) == label_of(s, id)
            &&& other != id ==> room_of(s2, other) == room_of(s, other) && label_of(s2, other)
                == label_of(s, other)
            &&& s2.clients == s.clients && s2.history == s.history
        }),
{
    let n = command_of(text)->Name_0;
    lemma_lookup_put(s.rooms, id, "lobby"@, id);
    lemma_lookup_put(s.rooms, id, "lobby"@, other);
    lemma_lookup_put(s.names, id, n, id);
    lemma_lookup_put(s.names, id, n, other);
}

/// The last `REPLAY_LINES` lines of a history, in order: all of them where there
/// are fewer.
pub proof fn law_replay_is_latest_lines(h: Seq<Seq<char>>)
    ensures
        recent(h).len() == if h.len() > REPLAY_LINES {
            REPLAY_LINES as nat
        } else {
            h.len()
        },
        recent(h) == h.subrange(h.len() - recent(h).len(), h.len() as int),
{
    assert(recent(h) =~= h.subrange(h.len() - recent(h).len(), h.len() as int));
}

/// `/join` with a room name moves the client into that room, confirms it, and
/// replays that room's latest lines; nobody else's room changes.
pub proof fn law_join_moves_to_room(s: ChatState, id: usize, text: Seq<char>, other: usize)
    requires
        command_of(text) matches Command::Join(r) && r.len() > 0,
    ensures
        ({
            let r = command_of(text)->Join_0;
            let (s2, out) = step(s, id, text, false);
            &&& room_of(s2, id) == r
            &&& other != id ==> room_of(s2, other) == room_of(s, other)
            &&& out == seq![(id, "Joined room: "@ + r)] + sent_to(id, recent(history_of(s, r)))
            &&& out.len() <= REPLAY_LINES + 1
            &&& s2.clients == s.clients && s2.names == s.names && s2.history == s.history
        }),
{
    let r = command_of(text)->Join_0;
    lemma_lookup_put(s.rooms, id, r, id);
    lemma_lookup_put(s.rooms, id, r, other);
}

/// A `/dm` sends at most one message: to the first client recorded with the
/// target name, only while that client is connected, with the sender's label.
pub proof fn law_dm_reaches_only_named_client(s: ChatState, id: usize, text: Seq<char>)
    requires
        command_of(text) is Dm,
    ensures
        ({
            let target = command_of(text)->Dm_0;
            let body = command_of(text)->Dm_1;
            let out = step(s, id, text, false).1;
            &&& out.len() <= 1
            &&& out.len() == 1 ==> {
                &&& s.clients.contains(out[0].0)
                &&& lookup(s.names, out[0].0) is Some
                &&& exists|p: int| 0 <= p < s.names.len() && s.names[p] == (out[0].0, target)
                &&& out[0].1 == dm_text(s, id, body)
            }
            &&& (forall|p: int| 0 <= p < s.names.len() ==> s.names[p].1 != target) ==> out.len() == 0
        }),
{
    let target = command_of(text)->Dm_0;
    lemma_value_pos_from(s.names, target, 0);
    let p = value_pos_from(s.names, target, 0);
    if p < s.names.len() {
        let t = s.names[p].0;
        lemma_key_pos_from(s.names, t, 0);
        if key_pos(s.names, t) == s.names.len() {
            assert(s.names[p].0 == t);
        }
    }
}

/// A position that `value_pos_from` finds lies in range and holds the value.
pub proof fn lemma_value_pos_from(t: Seq<(usize, Seq<char>)>, v: Seq<char>, i: int)
    requires
        0 <= i <= t.len(),
    ensures
        i <= value_pos_from(t, v, i) <= t.len(),
        value_pos_from(t, v, i) < t.len() ==> t[value_pos_from(t, v, i)].1 == v,
        forall|j: int| i <= j < value_pos_from(t, v, i) ==> t[j].1 != v,
    decreases t.len() - i,
{
    if i < t.len() && t[i].1 != v {
        lemma_value_pos_from(t, v, i + 1);
    }
}

/// A disconnection drops the client from the connected list (its first entry)
/// and keeps its name, room and all history: later `/get_rooms` still list it.
pub proof fn law_disconnect_keeps_records(s: ChatState, id: usize)
    ensures
        ({
            let s2 = disconnected(s, id);
            &&& s2.names == s.names && s2.rooms == s.rooms && s2.history == s.history
            &&& s2.next_id == s.next_id
            &&& s.clients.contains(id) ==> s2.clients.len() + 1 == s.clients.len()
            &&& !s.clients.contains(id) ==> s2.clients == s.clients
            &&& s.clients.no_duplicates() && s.clients.contains(id) ==> !s2.clients.contains(id)
        }),
{
    lemma_id_pos_from(s.clients, id, 0);
    let p = id_pos_from(s.clients, id, 0);
    if s.clients.contains(id) {
        let w = choose|w: int| 0 <= w < s.clients.len() && s.clients[w] == id;
        assert(p <= w);
        if s.clients.no_duplicates() {
            let s2 = disconnected(s, id);
            if s2.clients.contains(id) {
                let v = choose|v: int| 0 <= v < s2.clients.len() && s2.clients[v] == id;
                if v < p {
                    assert(s.clients[v] == id);
                } else {
                    assert(s.clients[v + 1] == id);
                }
            }
        }
    } else if p < s.clients.len() {
        assert(s.clients[p] == id);
    }
}

/// A position that `id_pos_from` finds lies in range and holds the id.
pub proof fn lemma_id_pos_from(cs: Seq<usize>, id: usize, i: int)
    requires
        0 <= i <= cs.len(),
    ensures
        i <= id_pos_from(cs, id, i) <= cs.len(),
        id_pos_from(cs, id, i) < cs.len() ==> cs[id_pos_from(cs, id, i)] == id,
        forall|j: int| i <= j < id_pos_from(cs, id, i) ==> cs[j] != id,
    decreases cs.len() - i,
{
    if i < cs.len() && cs[i] != id {
        lemma_id_pos_from(cs, id, i + 1);
    }
}

/// A non-empty trimmed text ends in a character that is not white space.
proof fn lemma_trim_end_last(u: Seq<char>)
    ensures
        trim_end(u).len() > 0 ==> !is_space(trim_end(u).last()),
        u.len() > 0 && !is_space(u.last()) ==> trim_end(u) == u,
    decreases u.len(),
{
    if u.len() > 0 && is_space(u.last()) {
        lemma_trim_end_last(u.drop_last());
    }
}

/// Trimming keeps a text whose last character is not white space non-empty.
proof fn lemma_trim_keeps_solid_end(u: Seq<char>)
    requires
        u.len() > 0,
        !is_space(u.last()),
    ensures
        trim(u).len() > 0,
    decreases u.len(),
{
    if is_space(u[0]) {
        if u.len() > 1 {
            assert(u.drop_first().last() == u.last());
            lemma_trim_keeps_solid_end(u.drop_first());
        }
    } else {
        lemma_trim_end_last(u);
    }
}

/// The rest of a trimmed line after a prefix ending in a space trims to a
/// non-empty text.
proof fn lemma_argument_not_empty(text: Seq<char>, prefix: Seq<char>)
    requires
        starts_with(trim(text), prefix),
        prefix.len() > 0,
        prefix.last() == ' ',
    ensures
        trim(trim(text).skip(prefix.len() as int)).len() > 0,
{
    let t = trim(text);
    lemma_trim_end_last(trim_start(text));
    assert(t.take(prefix.len() as int)[prefix.len() - 1] == ' ');
    assert(is_space(' '));
    assert(t.len() > prefix.len());
    let rest = t.skip(prefix.len() as int);
    assert(rest.last() == t.last());
    lemma_trim_keeps_solid_end(rest);
}

/// The names and rooms that `/name` and `/join` set are never empty: the line is
/// trimmed first, so the argument after the command's space always holds a
/// character that is not white space.
pub proof fn law_arguments_never_empty(text: Seq<char>)
    ensures
        command_of(text) matches Command::Name(n) ==> n.len() > 0,
        command_of(text) matches Command::Join(r) ==> r.len() > 0,
{
    reveal_strlit("/name ");
    reveal_strlit("/join ");
    let t = trim(text);
    if command_of(text) is Name {
        lemma_argument_not_empty(text, "/name "@);
    }
    if command_of(text) is Join {
        lemma_argument_not_empty(text, "/join "@);
    }
}

/// With no client listed twice and everybody in one room, a room fan-out from a
/// listed client reaches all the others: one message fewer than there are
/// clients.
pub proof fn lemma_room_fan_out_len(s: ChatState, cs: Seq<usize>, id: usize, room: Seq<char>, msg: Seq<char>)
    requires
        cs.no_duplicates(),
        forall|i: int| 0 <= i < cs.len() ==> room_of(s, #[trigger] cs[i]) == room,
    ensures
        room_fan_out(s, cs, id, room, msg).len() + (if cs.contains(id) {
            1int
        } else {
            0int
        }) == cs.len(),
    decreases cs.len(),
{
    if cs.len() > 0 {
        let pre = cs.drop_last();
        assert forall|i: int| 0 <= i < pre.len() implies room_of(s, #[trigger] pre[i]) == room by {
            assert(pre[i] == cs[i]);
        }
        lemma_room_fan_out_len(s, pre, id, room, msg);
        assert(room_of(s, cs[cs.len() - 1]) == room);
        if cs.last() == id {
            if pre.contains(id) {
                let w = choose|w: int| 0 <= w < pre.len() && pre[w] == id;
                assert(cs[w] == cs[cs.len() - 1]);
            }
        } else {
            if cs.contains(id) {
                let w = choose|w: int| 0 <= w < cs.len() && cs[w] == id;
                assert(pre[w] == id);
            }
            if pre.contains(id) {
                let w = choose|w: int| 0 <= w < pre.len() && pre[w] == id;
                assert(cs[w] == id);
            }
        }
    }
}

/// In a room that holds every client, a chat line from a connected client is
/// delivered `N - 1` times for `N` distinct clients: the count the load tester
/// expects of a lobby broadcast.
pub proof fn law_lobby_line_reaches_all_others(s: ChatState, id: usize, text: Seq<char>)
    requires
        command_of(text) is Say,
        s.clients.no_duplicates(),
        s.clients.contains(id),
        forall|i: int| 0 <= i < s.clients.len() ==> room_of(s, #[trigger] s.clients[i]) == room_of(s, id),
    ensures
        step(s, id, text, false).1.len() + 1 == s.clients.len(),
{
    let t = command_of(text)->Say_0;
    lemma_room_fan_out_len(s, s.clients, id, room_of(s, id), say_line(s, id, t));
}

/// A client that connects and then disconnects leaves the state as it found it,
/// provided it was not already connected.
pub proof fn law_disconnect_undoes_connect(s: ChatState, id: usize)
    requires
        !s.clients.contains(id),
    ensures
        disconnected(connected(s, id), id) == s,
{
    let cs = s.clients.push(id);
    assert forall|j: int| 0 <= j < s.clients.len() implies cs[j] != id by {
        assert(cs[j] == s.clients[j]);
    }
    lemma_id_pos_from(cs, id, 0);
    let p = id_pos_from(cs, id, 0);
    assert(cs[s.clients.len() as int] == id);
    if p < s.clients.len() {
        assert(cs[p] != id);
    }
    assert(p == s.clients.len());
    assert(cs.remove(p) =~= s.clients);
}

/// An occurrence makes `contains` hold.
pub proof fn lemma_occurs_contains(t: Seq<char>, p: Seq<char>, i: int)
    requires
        occurs_at(t, p, i),
    ensures
        contains(t, p),
{
    if find_from(t, p, 0) is None {
        lemma_find_from_none(t, p, 0);
    }
}

/// An occurrence in `a` is one in `a + b` at the same place.
proof fn lemma_occurs_left(a: Seq<char>, b: Seq<char>, p: Seq<char>, i: int)
    requires
        occurs_at(a, p, i),
    ensures
        occurs_at(a + b, p, i),
{
    assert((a + b).subrange(i, i + p.len()) =~= a.subrange(i, i + p.len()));
}

/// An occurrence in `b` is one in `a + b`, shifted by the length of `a`.
proof fn lemma_occurs_right(a: Seq<char>, b: Seq<char>, p: Seq<char>, i: int)
    requires
        occurs_at(b, p, i),
    ensures
        occurs_at(a + b, p, i + a.len()),
{
    assert((a + b).subrange(i + a.len(), i + a.len() + p.len()) =~= b.subrange(i, i + p.len()));
}

/// Each part of a joined text occurs in it.
proof fn lemma_join_has_part(parts: Seq<Seq<char>>, sep: Seq<char>, k: int) -> (i: int)
    requires
        0 <= k < parts.len(),
    ensures
        occurs_at(join(parts, sep), parts[k], i),
    decreases parts.len(),
{
    if parts.len() == 1 {
        assert(join(parts, sep).subrange(0, parts[0].len() as int) =~= parts[0]);
        0
    } else {
        let pre = join(parts.drop_last(), sep);
        if k == parts.len() - 1 {
            let i: int = (pre.len() + sep.len()) as int;
            assert(join(parts, sep).subrange(i, i + parts.last().len()) =~= parts.last());
            i
        } else {
            let i = lemma_join_has_part(parts.drop_last(), sep, k);
            assert(parts.drop_last()[k] == parts[k]);
            lemma_occurs_left(pre, sep + parts.last(), parts[k], i);
            assert(pre + (sep + parts.last()) =~= join(parts, sep));
            i
        }
    }
}

/// The labels of the other listed clients: one for each of them, none where
/// every listed id is `id`.
proof fn lemma_other_labels_cover(s: ChatState, cs: Seq<usize>, id: usize)
    ensures
        forall|c: usize|
            #![trigger cs.contains(c)]
            cs.contains(c) && c != id ==> exists|k: int|
                0 <= k < other_labels(s, cs, id).len() && other_labels(s, cs, id)[k] == label_of(s, c),
        (forall|i: int| 0 <= i < cs.len() ==> cs[i] == id) ==> other_labels(s, cs, id).len() == 0,
    decreases cs.len(),
{
    if cs.len() > 0 {
        let pre = cs.drop_last();
        lemma_other_labels_cover(s, pre, id);
        let prev = other_labels(s, pre, id);
        let out = other_labels(s, cs, id);
        assert forall|c: usize| #![trigger cs.contains(c)] cs.contains(c) && c != id implies exists|k: int|
            0 <= k < out.len() && out[k] == label_of(s, c) by {
            let w = choose|w: int| 0 <= w < cs.len() && cs[w] == c;
            if w < cs.len() - 1 {
                assert(pre[w] == c);
                assert(pre.contains(c));
                let k = choose|k: int| 0 <= k < prev.len() && prev[k] == label_of(s, c);
                assert(out[k] == prev[k]);
            } else {
                assert(out[prev.len() as int] == label_of(s, c));
            }
        }
        if forall|i: int| 0 <= i < cs.len() ==> cs[i] == id {
            assert forall|i: int| 0 <= i < pre.len() implies pre[i] == id by {
                assert(pre[i] == cs[i]);
            }
            assert(cs[cs.len() - 1] == id);
        }
    }
}

/// `/who` answers the asker alone. With nobody else connected it says `No one`;
/// otherwise the shown name of every other connected client, whatever its room,
/// appears in the answer (its `/name`, or `user<id>`).
pub proof fn law_who_lists_every_other_client(s: ChatState, id: usize, text: Seq<char>)
    requires
        command_of(text) is Who,
    ensures
        ({
            let (s2, out) = step(s, id, text, false);
            &&& s2 == s
            &&& out.len() == 1
            &&& out[0].0 == id
            &&& (forall|i: int| 0 <= i < s.clients.len() ==> s.clients[i] == id) ==> out[0].1 == "No one"@
            &&& forall|c: usize|
                #![trigger s.clients.contains(c)]
                s.clients.contains(c) && c != id ==> contains(
                    out[0].1,
                    match lookup(s.names, c) {
                        Some(n) => n,
                        None => "user"@ + decimal(c as nat),
                    },
                )
        }),
{
    lemma_other_labels_cover(s, s.clients, id);
    let labels = other_labels(s, s.clients, id);
    let out = step(s, id, text, false).1;
    assert forall|c: usize|
        #![trigger s.clients.contains(c)]
        s.clients.contains(c) && c != id implies contains(
            out[0].1,
            match lookup(s.names, c) {
                Some(n) => n,
                None => "user"@ + decimal(c as nat),
            },
        ) by {
        let k = choose|k: int| 0 <= k < labels.len() && labels[k] == label_of(s, c);
        let i = lemma_join_has_part(labels, ", "@, k);
        lemma_occurs_right("Online: "@, join(labels, ", "@), labels[k], i);
        lemma_occurs_contains(out[0].1, labels[k], i + "Online: "@.len());
    }
}

/// `/count` answers the asker with the number of clients connected now, in
/// decimal; so a disconnection lowers the count by one.
pub proof fn law_count_reports_connected_clients(s: ChatState, id: usize, text: Seq<char>, gone: usize)
    requires
        command_of(text) is Count,
    ensures
        step(s, id, text, false) == (s, seq![(id, "Total active clients: "@ + decimal(s.clients.len()))]),
        s.clients.contains(gone) ==> step(disconnected(s, gone), id, text, false).1 == seq![
            (id, "Total active clients: "@ + decimal((s.clients.len() - 1) as nat)),
        ],
{
    law_disconnect_keeps_records(s, gone);
}

/// The first position holding a value is the one `value_pos_from` finds.
proof fn lemma_value_pos_is_first(t: Seq<(usize, Seq<char>)>, v: Seq<char>, p: int)
    requires
        0 <= p < t.len(),
        t[p].1 == v,
        forall|j: int| 0 <= j < p ==> t[j].1 != v,
    ensures
        value_pos_from(t, v, 0) == p,
{
    lemma_value_pos_from(t, v, 0);
    let q = value_pos_from(t, v, 0);
    if q < p {
        assert(t[q].1 == v);
    } else if p < q {
        assert(t[p].1 != v);
    }
}

/// A `/dm` to a name goes to the first client recorded with that name whenever
/// it is connected, whatever the rooms of sender and receiver: exactly one
/// message, `(DM from <sender's name>) <body>`.
pub proof fn law_dm_reaches_connected_named_client(s: ChatState, id: usize, text: Seq<char>, p: int)
    requires
        command_of(text) is Dm,
        0 <= p < s.names.len(),
        s.names[p].1 == command_of(text)->Dm_0,
        forall|q: int| 0 <= q < p ==> s.names[q].1 != command_of(text)->Dm_0,
        s.clients.contains(s.names[p].0),
    ensures
        step(s, id, text, false) == (
            s,
            seq![
                (
                    s.names[p].0,
                    "(DM from "@ + match lookup(s.names, id) {
                        Some(n) => n,
                        None => "user"@ + decimal(id as nat),
                    } + ") "@ + command_of(text)->Dm_1,
                ),
            ],
        ),
{
    lemma_value_pos_is_first(s.names, command_of(text)->Dm_0, p);
}

/// `/name` replays the lobby's latest lines, whatever room the client was in:
/// the last `REPLAY_LINES` (or all) of the lobby's stored lines, oldest first,
/// then `name set to <name>`.
pub proof fn law_name_replays_lobby_history(s: ChatState, id: usize, text: Seq<char>)
    requires
        command_of(text) is Name,
    ensures
        ({
            let out = step(s, id, text, false).1;
            let h = match lookup(s.history, "lobby"@) {
                Some(h) => h,
                None => Seq::<Seq<char>>::empty(),
            };
            let m: int = if h.len() > REPLAY_LINES {
                REPLAY_LINES as int
            } else {
                h.len() as int
            };
            &&& out.len() == m + 1
            &&& forall|k: int| 0 <= k < m ==> #[trigger] out[k] == (id, h[h.len() - m + k])
            &&& out[m] == (id, "name set to "@ + command_of(text)->Name_0)
        }),
{
}

/// The room of a `/join` line is the whole rest of the trimmed line after
/// `/join `, trimmed, spaces inside it included; the client moves there and is
/// told so.
pub proof fn law_join_takes_whole_rest(s: ChatState, id: usize, text: Seq<char>)
    requires
        starts_with(trim(text), "/join "@),
    ensures
        ({
            let r = trim(trim(text).skip("/join "@.len() as int));
            let (s2, out) = step(s, id, text, false);
            &&& command_of(text) == Command::Join(r)
            &&& lookup(s2.rooms, id) == Some(r)
            &&& out[0] == (id, "Joined room: "@ + r)
        }),
{
    reveal_strlit("/join ");
    reveal_strlit("/who");
    reveal_strlit("/count");
    reveal_strlit("/name ");
    reveal_strlit("/dm ");
    reveal_strlit("/ping");
    let t = trim(text);
    assert(t.take(6)[1] == 'j');
    assert(t[1] == 'j');
    assert(t != "/who"@);
    assert(t != "/count"@);
    assert(t != "/ping"@);
    assert(t.take(6) != "/name "@) by {
        assert("/name "@[1] == 'n');
    }
    assert(t.take(4) != "/dm "@) by {
        assert(t.take(4)[1] == 'j');
    }
    let r = trim(t.skip("/join "@.len() as int));
    law_arguments_never_empty(text);
    lemma_lookup_put(s.rooms, id, r, id);
}

} // verus!
