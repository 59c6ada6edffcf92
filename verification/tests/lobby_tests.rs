use ctf_arena::hashdb::{read_db, HashDb};
use ctf_arena::lobby::{answer, try_answer, Arena, Command, Outgoing};

fn s(x: &str) -> String {
    x.to_string()
}

fn join(id: &str, secret: &str) -> Command {
    Command::Join { id: s(id), secret: s(secret) }
}

fn texts(out: &[Outgoing]) -> Vec<(i64, String)> {
    out.iter().map(|o| (o.chat, o.text.clone())).collect()
}

/// A database holding the keys of the given identities and secrets, one per
/// line.
fn db_for(keys: &[(&str, &str)]) -> HashDb {
    let mut text = String::new();
    for (i, (id, secret)) in keys.iter().enumerate() {
        let (_, k) = ctf_arena::digest::make_key(&s(id), &s(secret));
        if i > 0 {
            text.push('\n');
        }
        text.push_str(&k);
    }
    let mut db = HashDb::new();
    read_db(&mut db, text.as_bytes()).unwrap();
    db
}

#[test]
fn help_is_answered_with_the_command_table() {
    let mut arena = Arena::new(s("10.0.0.5"));
    let db = HashDb::new();
    let out = answer(&mut arena, &db, 42, &Command::Help, "These commands are supported:");
    assert_eq!(texts(&out), vec![(42, s("These commands are supported:"))]);
    assert_eq!(arena.players.len(), 0);
}

#[test]
fn unknown_player_is_not_available() {
    let mut arena = Arena::new(s("10.0.0.5"));
    let db = HashDb::new();
    let out = answer(&mut arena, &db, 7, &join("bob", "pw"), "");
    assert_eq!(
        texts(&out),
        vec![(7, s("User bob with secret pw is not available in the system."))]
    );
    assert!(arena.arena_player_ids.is_empty());
}

#[test]
fn two_players_are_matched_against_each_other() {
    let mut arena = Arena::new(s("10.0.0.5"));
    let db = db_for(&[("a", "bc")]);
    let out = answer(&mut arena, &db, 1, &join("a", "bc"), "");
    assert_eq!(
        texts(&out),
        vec![(1, s("Your username is a verified with bc.")), (1, s("Waiting for opponent..."))]
    );
    assert_eq!(arena.arena_player_ids, vec![1]);
    assert_eq!(arena.players.len(), 1);

    // The same credentials again: already joined, nothing changes.
    let out = answer(&mut arena, &db, 1, &join("a", "bc"), "");
    assert_eq!(texts(&out), vec![(1, s("User a with secret bc has already joined."))]);
    assert_eq!(arena.arena_player_ids, vec![1]);

    let db = db_for(&[("x", "1")]);
    let out = answer(&mut arena, &db, 2, &join("x", "1"), "");
    assert_eq!(
        texts(&out),
        vec![
            (2, s("Your username is x verified with 1.")),
            (1, s("Your opponent -> 10.0.0.5:40001")),
            (2, s("Your opponent -> 10.0.0.5:50001")),
        ]
    );
    assert_eq!(arena.arena_player_ids, vec![1, 2]);
}

#[test]
fn the_room_is_full_after_three_players() {
    let mut arena = Arena::new(s("h"));
    let pairs = [("a", "bc"), ("x", "1"), ("y", "2"), ("z", "3")];
    for (n, (id, secret)) in pairs.iter().enumerate().take(3) {
        let db = db_for(&[(id, secret)]);
        let out = answer(&mut arena, &db, n as i64, &join(id, secret), "");
        assert_eq!(out[0].text, format!("Your username is {} verified with {}.", id, secret));
    }
    assert_eq!(arena.players.len(), 3);
    assert_eq!(arena.arena_player_ids.len(), 3);
    let db = db_for(&[("z", "3")]);
    let out = answer(&mut arena, &db, 9, &join("z", "3"), "");
    assert_eq!(
        texts(&out),
        vec![(9, s("Room is full. Arena is now preparing for battle, can't join."))]
    );
    assert_eq!(arena.players.len(), 3);
}

#[test]
fn unsafe_lookup_is_declined_without_change() {
    let mut arena = Arena::new(s("h"));
    let mut db = HashDb::new();
    read_db(&mut db, b"abc\n").unwrap();
    assert!(try_answer(&mut arena, &db, 3, &join("a", "bc"), "").is_none());
    assert_eq!(arena.players.len(), 0);
    let out = try_answer(&mut arena, &db, 3, &Command::Help, "help").unwrap();
    assert_eq!(texts(&out), vec![(3, s("help"))]);
}
