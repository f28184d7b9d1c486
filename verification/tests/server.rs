use chat_compressor::server::{ChatCommand, ChatServer, Delivery, parse_command};

fn texts_for(out: &[Delivery], to: usize) -> Vec<String> {
    out.iter().filter(|d| d.to == to).map(|d| d.text.clone()).collect()
}

fn join_three() -> (ChatServer, usize, usize, usize) {
    let mut s = ChatServer::new();
    let a = s.accept();
    s.connect(a);
    let b = s.accept();
    s.connect(b);
    let c = s.accept();
    s.connect(c);
    (s, a, b, c)
}

#[test]
fn ids_count_up_from_one() {
    let mut s = ChatServer::new();
    assert_eq!(s.accept(), 1);
    assert_eq!(s.accept(), 2);
    assert_eq!(s.accept(), 3);
    assert_eq!(s.client_count(), 0);
}

#[test]
fn ping_is_answered_pong() {
    let (mut s, a, _, _) = join_three();
    let out = s.handle_text(a, "/ping");
    assert_eq!(out.len(), 1);
    assert_eq!(out[0].to, a);
    assert_eq!(out[0].text, "pong");
}

#[test]
fn ping_with_unicode_space_round_it() {
    let (mut s, a, _, _) = join_three();
    let out = s.handle_text(a, "\u{3000} /ping\t\u{a0}");
    assert_eq!(out.len(), 1);
    assert_eq!(out[0].text, "pong");
}

#[test]
fn count_reports_connected_clients() {
    let (mut s, a, _, _) = join_three();
    let out = s.handle_text(a, "/count");
    assert_eq!(out.len(), 1);
    assert_eq!(out[0].text, "Total active clients: 3");
}

#[test]
fn who_alone_is_no_one() {
    let mut s = ChatServer::new();
    let a = s.accept();
    s.connect(a);
    let out = s.handle_text(a, "/who");
    assert_eq!(out[0].text, "No one");
}

#[test]
fn who_lists_others_in_connection_order() {
    let (mut s, a, b, c) = join_three();
    s.handle_text(b, "/name Bob");
    let out = s.handle_text(a, "/who");
    assert_eq!(out.len(), 1);
    assert_eq!(out[0].to, a);
    assert_eq!(out[0].text, format!("Online: Bob, user{}", c));
    let _ = b;
}

#[test]
fn name_replies_and_moves_to_lobby() {
    let (mut s, a, b, _) = join_three();
    s.handle_text(a, "/join rust");
    let out = s.handle_text(a, "/name   Alice  ");
    assert_eq!(texts_for(&out, a), vec!["name set to Alice".to_string()]);
    let out = s.handle_text(b, "hello");
    assert_eq!(texts_for(&out, a), vec![format!("user{}: hello", b)]);
}

#[test]
fn empty_name_keeps_label() {
    let (mut s, a, b, _) = join_three();
    let out = s.handle_text(a, "/name  ");
    // "/name" alone is not the command: it is chat
    assert_eq!(texts_for(&out, b), vec![format!("user{}: /name", a)]);
    let out = s.handle_text(a, "/name \u{a0}x");
    assert_eq!(out.last().unwrap().text, "name set to x");
}

#[test]
fn name_replays_lobby_history_first() {
    let (mut s, a, b, _) = join_three();
    s.handle_text(a, "/name Alice");
    s.handle_text(a, "one");
    s.handle_text(a, "two");
    let out = s.handle_text(b, "/name Bob");
    let got: Vec<String> = texts_for(&out, b);
    assert_eq!(got, vec!["Alice: one".to_string(), "Alice: two".to_string(), "name set to Bob".to_string()]);
}

#[test]
fn lobby_broadcast_reaches_everyone_else() {
    let (mut s, a, b, c) = join_three();
    s.handle_text(a, "/name Alice");
    let out = s.handle_text(a, "  hello-lobby  ");
    assert_eq!(out.len(), 2);
    assert_eq!(texts_for(&out, b), vec!["Alice: hello-lobby".to_string()]);
    assert_eq!(texts_for(&out, c), vec!["Alice: hello-lobby".to_string()]);
    assert!(texts_for(&out, a).is_empty());
}

#[test]
fn rooms_are_isolated() {
    let (mut s, a, b, c) = join_three();
    s.handle_text(a, "/name Alice");
    let out = s.handle_text(a, "/join rust");
    assert_eq!(texts_for(&out, a), vec!["Joined room: rust".to_string()]);
    let out = s.handle_text(a, "only-rust");
    assert!(out.is_empty());
    let out = s.handle_text(b, "/join rust");
    assert_eq!(texts_for(&out, b), vec!["Joined room: rust".to_string(), "Alice: only-rust".to_string()]);
    let out = s.handle_text(a, "rust-hello");
    assert_eq!(texts_for(&out, b), vec!["Alice: rust-hello".to_string()]);
    assert!(texts_for(&out, c).is_empty());
}

#[test]
fn bare_join_is_chat() {
    let (mut s, a, b, _) = join_three();
    let out = s.handle_text(a, "/join   \t");
    // "/join" alone (after trimming) is chat, not the command
    assert_eq!(out.len(), 2);
    let out = s.handle_text(a, "/join \u{a0}");
    assert_eq!(texts_for(&out, b), vec![format!("user{}: /join", a)]);
}

#[test]
fn dm_goes_to_named_client_only() {
    let (mut s, a, b, c) = join_three();
    s.handle_text(a, "/name Alice");
    s.handle_text(b, "/name Bob");
    let out = s.handle_text(a, "/dm Bob secret-dm");
    assert_eq!(out.len(), 1);
    assert_eq!(out[0].to, b);
    assert_eq!(out[0].text, "(DM from Alice) secret-dm");
    let out = s.handle_text(c, "/dm   Bob    two words  ");
    assert_eq!(out[0].text, format!("(DM from user{}) two words", c));
}

#[test]
fn dm_to_unknown_or_gone_sends_nothing() {
    let (mut s, a, b, _) = join_three();
    s.handle_text(b, "/name Bob");
    assert!(s.handle_text(a, "/dm Nobody hi").is_empty());
    s.disconnect(b);
    assert!(s.handle_text(a, "/dm Bob hi").is_empty());
}

#[test]
fn dm_without_body_sends_empty_text() {
    let (mut s, a, b, _) = join_three();
    s.handle_text(b, "/name Bob");
    let out = s.handle_text(a, "/dm Bob");
    assert_eq!(out.len(), 1);
    assert_eq!(out[0].text, format!("(DM from user{}) ", a));
}

#[test]
fn get_rooms_lists_every_entry_even_stale() {
    let (mut s, a, b, c) = join_three();
    s.handle_text(a, "/name Alice");
    s.handle_text(b, "/join rust");
    s.disconnect(b);
    let out = s.handle_text(c, "/get_rooms");
    assert_eq!(out.len(), 1);
    assert_eq!(out[0].to, c);
    assert_eq!(out[0].text, "Active rooms: [\"lobby\", \"rust\"]");
}

#[test]
fn get_rooms_escapes_names() {
    let (mut s, a, _, _) = join_three();
    s.handle_text(a, "/join a\"b\\c");
    let out = s.handle_text(a, "/get_rooms");
    assert_eq!(out[0].text, "Active rooms: [\"a\\\"b\\\\c\"]");
}

#[test]
fn get_rooms_with_none_is_empty_list() {
    let (mut s, a, _, _) = join_three();
    let out = s.handle_text(a, "/get_rooms");
    assert_eq!(out[0].text, "Active rooms: []");
}

#[test]
fn json_goes_to_everyone_else_whatever_the_room() {
    let (mut s, a, b, c) = join_three();
    s.handle_text(b, "/join rust");
    let img = "{ \"type\": \"image\", \"data\": \"data:x\" }";
    let out = s.handle_text(a, img);
    assert_eq!(out.len(), 2);
    assert_eq!(texts_for(&out, b), vec![img.to_string()]);
    assert_eq!(texts_for(&out, c), vec![img.to_string()]);
    let out = s.handle_text(a, "  42 ");
    assert_eq!(texts_for(&out, b), vec!["  42 ".to_string()]);
    // no history is kept of JSON lines
    let out = s.handle_text(c, "/join rust");
    assert_eq!(out.len(), 1);
}

#[test]
fn non_json_brace_is_chat() {
    let (mut s, a, b, _) = join_three();
    let out = s.handle_text(a, "{not json");
    assert_eq!(texts_for(&out, b), vec![format!("user{}: {{not json", a)]);
}

#[test]
fn history_keeps_last_hundred_and_replays_fifty() {
    let (mut s, a, b, _) = join_three();
    s.handle_text(a, "/join r");
    for i in 1..=105 {
        s.handle_text(a, &format!("m{}", i));
    }
    let out = s.handle_text(b, "/join r");
    assert_eq!(out.len(), 51);
    assert_eq!(out[0].text, "Joined room: r");
    for (k, d) in out[1..].iter().enumerate() {
        assert_eq!(d.text, format!("user{}: m{}", a, 56 + k));
    }
}

#[test]
fn disconnect_removes_client() {
    let (mut s, a, b, c) = join_three();
    s.disconnect(b);
    assert_eq!(s.client_count(), 2);
    let out = s.handle_text(a, "hi");
    assert_eq!(out.len(), 1);
    assert_eq!(out[0].to, c);
    s.disconnect(b);
    assert_eq!(s.client_count(), 2);
}

#[test]
fn parse_command_reads_arguments() {
    match parse_command("  /dm Bob  hello there ") {
        ChatCommand::Dm(t, b) => {
            assert_eq!(t, "Bob");
            assert_eq!(b, "hello there");
        }
        _ => panic!("expected a direct message"),
    }
    match parse_command("/join  lounge ") {
        ChatCommand::Join(r) => assert_eq!(r, "lounge"),
        _ => panic!("expected a join"),
    }
    match parse_command("/who ") {
        ChatCommand::Who => {}
        _ => panic!("expected who"),
    }
    match parse_command("/whom") {
        ChatCommand::Say(t) => assert_eq!(t, "/whom"),
        _ => panic!("expected chat"),
    }
}

#[test]
fn functional_scenario() {
    let (mut s, a, b, c) = join_three();
    assert_eq!(s.handle_text(a, "/ping")[0].text, "pong");
    assert!(s.handle_text(a, "/name Alice")[0].text.contains("Alice"));
    assert!(s.handle_text(b, "/name Bob")[0].text.contains("Bob"));
    assert!(s.handle_text(c, "/name Cara")[0].text.contains("Cara"));
    let who = s.handle_text(a, "/who");
    assert!(who[0].text.contains("Bob") && who[0].text.contains("Cara"));
    assert!(s.handle_text(a, "/count")[0].text.contains('3'));
    let out = s.handle_text(c, "/get_rooms");
    assert_eq!(out[0].text, "Active rooms: [\"lobby\", \"lobby\", \"lobby\"]");
}

#[test]
fn questions_change_nothing() {
    let (mut s, a, b, _) = join_three();
    s.handle_text(b, "/join rust");
    let before = s.handle_text(a, "/get_rooms")[0].text.clone();
    s.handle_text(a, "/who");
    s.handle_text(a, "/count");
    s.handle_text(a, "/ping");
    s.handle_text(a, "/dm Nobody x");
    assert_eq!(s.handle_text(a, "/get_rooms")[0].text, before);
    assert_eq!(s.client_count(), 3);
    // nothing was added to any history
    assert_eq!(s.handle_text(a, "/join rust").len(), 1);
}

#[test]
fn disconnect_undoes_connect() {
    let (mut s, a, _, _) = join_three();
    let before = s.handle_text(a, "/who")[0].text.clone();
    let d = s.accept();
    s.connect(d);
    assert_eq!(s.client_count(), 4);
    s.disconnect(d);
    assert_eq!(s.client_count(), 3);
    assert_eq!(s.handle_text(a, "/who")[0].text, before);
}

#[test]
fn client_named_finds_first_recorded() {
    let (mut s, a, b, c) = join_three();
    s.handle_text(b, "/name Bob");
    s.handle_text(c, "/name Bob");
    assert_eq!(s.client_named("Bob"), Some(b));
    assert_eq!(s.client_named("Nobody"), None);
    assert!(s.is_connected(a));
    s.disconnect(b);
    assert!(!s.is_connected(b));
    assert_eq!(s.client_named("Bob"), Some(b));
    assert!(s.handle_text(a, "/dm Bob hi").is_empty());
}

#[test]
fn get_rooms_quotes_plain_names() {
    let (mut s, a, _, _) = join_three();
    s.handle_text(a, "/join it's-ok");
    let out = s.handle_text(a, "/get_rooms");
    assert_eq!(out[0].text, "Active rooms: [\"it's-ok\"]");
}
