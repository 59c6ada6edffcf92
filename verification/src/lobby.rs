//! The Telegram lobby: what the bot answers to `/help` and `/join`, and how
//! the arena's state changes with each answer.

use vstd::prelude::*;
use crate::arena::{PLAYER_01_PORT, PLAYER_02_PORT};
use crate::auth::{admission_adds_one_player, verify, verify_code, verify_is_safe, verify_safe};
use crate::digest::player_key;
use crate::hashdb::HashDb;
use crate::roster::Players;
use crate::text::{decimal, push_decimal, string_of};

verus! {

/// A command sent to the bot.
pub enum Command {
    /// Display the table of commands.
    Help,
    /// Join the arena with an identity and a secret.
    Join { id: String, secret: String },
}

/// A message for the bot to send to a chat.
pub struct Outgoing {
    pub chat: i64,
    pub text: String,
}

/// The chat and the text of each message, in order.
pub open spec fn outgoing_view(v: Seq<Outgoing>) -> Seq<(i64, Seq<char>)> {
    v.map_values(|o: Outgoing| (o.chat, o.text@))
}

/// The lobby: the admitted players, the chats of the players admitted so
/// far in order of admission, and the address of the host.
pub struct Arena {
    pub players: Players,
    pub arena_player_ids: Vec<i64>,
    pub hostip: String,
}

impl Arena {
    pub open spec fn wf(&self) -> bool {
        self.players.wf()
    }

    /// An empty lobby on the host with address `hostip`.
    pub fn new(hostip: String) -> (r: Arena)
        ensures
            r.wf(),
            r.players@ == Map::<Seq<char>, u8>::empty(),
            r.arena_player_ids@ == Seq::<i64>::empty(),
            r.hostip@ == hostip@,
    {
        Arena { players: Players::new(), arena_player_ids: Vec::new(), hostip }
    }
}

pub open spec fn not_available_text(id: Seq<char>, secret: Seq<char>) -> Seq<char> {
    "User "@ + id + " with secret "@ + secret + " is not available in the system."@
}

pub open spec fn verified_text(id: Seq<char>, secret: Seq<char>) -> Seq<char> {
    "Your username is "@ + id + " verified with "@ + secret + "."@
}

pub open spec fn opponent_text(hostip: Seq<char>, port: u16) -> Seq<char> {
    "Your opponent -> "@ + hostip + ":"@ + decimal(port as nat)
}

pub open spec fn waiting_text() -> Seq<char> {
    "Waiting for opponent..."@
}

pub open spec fn already_joined_text(id: Seq<char>, secret: Seq<char>) -> Seq<char> {
    "User "@ + id + " with secret "@ + secret + " has already joined."@
}

pub open spec fn room_full_text() -> Seq<char> {
    "Room is full. Arena is now preparing for battle, can't join."@
}

pub open spec fn unexpected_text() -> Seq<char> {
    "What the fuck?"@
}

/// The messages that answer a request to join from `chat`, given the
/// verdict `code`, the chats admitted before, and the host's address.
pub open spec fn join_replies(
    code: u8,
    chat: i64,
    id: Seq<char>,
    secret: Seq<char>,
    ids_before: Seq<i64>,
    hostip: Seq<char>,
) -> Seq<(i64, Seq<char>)> {
    if code == 0 {
        seq![(chat, not_available_text(id, secret))]
    } else if code == 1 {
        let ids = ids_before.push(chat);
        seq![(chat, verified_text(id, secret))] + if ids.len() == 2 {
            seq![
                (ids[0], opponent_text(hostip, PLAYER_02_PORT)),
                (ids.last(), opponent_text(hostip, PLAYER_01_PORT)),
            ]
        } else {
            seq![(chat, waiting_text())]
        }
    } else if code == 2 {
        seq![(chat, already_joined_text(id, secret))]
    } else if code == 3 {
        seq![(chat, room_full_text())]
    } else {
        seq![(chat, unexpected_text())]
    }
}

/// The text `a + b + c + d + e`.
fn join5(a: &str, b: &str, c: &str, d: &str, e: &str) -> (r: String)
    ensures
        r@ == a@ + b@ + c@ + d@ + e@,
{
    let mut t = String::new();
    t.append(a);
    t.append(b);
    t.append(c);
    t.append(d);
    t.append(e);
    assert(t@ =~= a@ + b@ + c@ + d@ + e@);
    t
}

fn opponent_message(hostip: &String, port: u16) -> (r: String)
    ensures
        r@ == opponent_text(hostip@, port),
{
    let mut t = String::new();
    t.append("Your opponent -> ");
    t.append(hostip.as_str());
    t.append(":");
    push_decimal(&mut t, port);
    assert(t@ =~= opponent_text(hostip@, port));
    t
}

/// Answers one command from `chat`. `/help` is answered with `help_text`.
/// `/join` is judged by `verify`; an admitted player is recorded with the
/// mark 1 under its key and its chat is recorded after the others; when
/// that makes two chats, both players are sent the host and the port of
/// the other's container, otherwise the newcomer is told to wait.
pub fn answer(arena: &mut Arena, db: &HashDb, chat: i64, cmd: &Command, help_text: &str) -> (r: Vec<
    Outgoing,
>)
    requires
        old(arena).wf(),
        cmd matches Command::Join { id, secret } ==> verify_safe(
            old(arena).players@,
            db@,
            id@,
            secret@,
        ),
    ensures
        final(arena).wf(),
        final(arena).hostip@ == old(arena).hostip@,
        old(arena).players@.dom().len() <= 3 ==> final(arena).players@.dom().len() <= 3,
        old(arena).arena_player_ids@.len() == old(arena).players@.dom().len()
            ==> final(arena).arena_player_ids@.len() == final(arena).players@.dom().len(),
        match cmd {
            Command::Help => {
                &&& outgoing_view(r@) == seq![(chat, help_text@)]
                &&& final(arena).players@ == old(arena).players@
                &&& final(arena).arena_player_ids@ == old(arena).arena_player_ids@
            },
            Command::Join { id, secret } => {
                let code = verify_code(old(arena).players@, db@, id@, secret@);
                &&& outgoing_view(r@) == join_replies(
                    code,
                    chat,
                    id@,
                    secret@,
                    old(arena).arena_player_ids@,
                    old(arena).hostip@,
                )
                &&& code == 1 ==> final(arena).players@ == old(arena).players@.insert(
                    player_key(id@, secret@),
                    1,
                ) && final(arena).arena_player_ids@ == old(arena).arena_player_ids@.push(chat)
                &&& code != 1 ==> final(arena).players@ == old(arena).players@
                    && final(arena).arena_player_ids@ == old(arena).arena_player_ids@
                &&& code == 1 ==> final(arena).players@.dom().len() == old(arena).players@.dom().len() + 1
                    && final(arena).arena_player_ids@.len() == old(arena).arena_player_ids@.len() + 1
            },
        },
{
    let mut out: Vec<Outgoing> = Vec::new();
    match cmd {
        Command::Help => {
            out.push(Outgoing { chat, text: string_of(help_text) });
            assert(outgoing_view(out@) =~= seq![(chat, help_text@)]);
        },
        Command::Join { id, secret } => {
            let mut hash = String::new();
            let ghost players_before = arena.players@;
            proof {
                arena.players.lemma_finite();
            }
            let arena_state = verify(&arena.players, db, id, secret, &mut hash);
            proof {
                if arena_state == 1 {
                    admission_adds_one_player(players_before, db@, id@, secret@);
                }
            }
            let ghost replies = join_replies(
                arena_state,
                chat,
                id@,
                secret@,
                arena.arena_player_ids@,
                arena.hostip@,
            );
            match arena_state {
                0 => {
                    out.push(
                        Outgoing {
                            chat,
                            text: join5(
                                "User ",
                                id.as_str(),
                                " with secret ",
                                secret.as_str(),
                                " is not available in the system.",
                            ),
                        },
                    );
                },
                1 => {
                    arena.players.insert(hash, 1u8);
                    arena.arena_player_ids.push(chat);
                    out.push(
                        Outgoing {
                            chat,
                            text: join5(
                                "Your username is ",
                                id.as_str(),
                                " verified with ",
                                secret.as_str(),
                                ".",
                            ),
                        },
                    );
                    if arena.arena_player_ids.len() == 2 {
                        let first = arena.arena_player_ids[0];
                        let last = arena.arena_player_ids[arena.arena_player_ids.len() - 1];
                        out.push(
                            Outgoing {
                                chat: first,
                                text: opponent_message(&arena.hostip, PLAYER_02_PORT),
                            },
                        );
                        out.push(
                            Outgoing {
                                chat: last,
                                text: opponent_message(&arena.hostip, PLAYER_01_PORT),
                            },
                        );
                    } else {
                        out.push(Outgoing { chat, text: string_of("Waiting for opponent...") });
                    }
                },
                2 => {
                    out.push(
                        Outgoing {
                            chat,
                            text: join5(
                                "User ",
                                id.as_str(),
                                " with secret ",
                                secret.as_str(),
                                " has already joined.",
                            ),
                        },
                    );
                },
                3 => {
                    out.push(
                        Outgoing {
                            chat,
                            text: string_of(
                                "Room is full. Arena is now preparing for battle, can't join.",
                            ),
                        },
                    );
                },
                _ => {
                    out.push(Outgoing { chat, text: string_of("What the fuck?") });
                },
            }
            assert(outgoing_view(out@) =~= replies);
        },
    }
    out
}


/// `answer` where the request's lookup is safe; `None`, with the arena
/// unchanged, for a `/join` whose lookup would compare the key with an entry
/// that is a proper prefix of it.
pub fn try_answer(arena: &mut Arena, db: &HashDb, chat: i64, cmd: &Command, help_text: &str) -> (r:
    Option<Vec<Outgoing>>)
    requires
        old(arena).wf(),
    ensures
        final(arena).wf(),
        old(arena).players@.dom().len() <= 3 ==> final(arena).players@.dom().len() <= 3,
        old(arena).arena_player_ids@.len() == old(arena).players@.dom().len()
            ==> final(arena).arena_player_ids@.len() == final(arena).players@.dom().len(),
        r is None <==> (cmd matches Command::Join { id, secret } && !verify_safe(
            old(arena).players@,
            db@,
            id@,
            secret@,
        )),
        r is None ==> final(arena).players@ == old(arena).players@
            && final(arena).arena_player_ids@ == old(arena).arena_player_ids@
            && final(arena).hostip@ == old(arena).hostip@,
        r is Some ==> final(arena).hostip@ == old(arena).hostip@,
        r is Some ==> match cmd {
            Command::Help => final(arena).players@ == old(arena).players@
                && final(arena).arena_player_ids@ == old(arena).arena_player_ids@,
            Command::Join { id, secret } => {
                let code = verify_code(old(arena).players@, db@, id@, secret@);
                &&& code == 1 ==> final(arena).players@ == old(arena).players@.insert(
                    player_key(id@, secret@),
                    1,
                ) && final(arena).arena_player_ids@ == old(arena).arena_player_ids@.push(chat)
                &&& code != 1 ==> final(arena).players@ == old(arena).players@
                    && final(arena).arena_player_ids@ == old(arena).arena_player_ids@
                &&& code == 1 ==> final(arena).players@.dom().len() == old(arena).players@.dom().len() + 1
                    && final(arena).arena_player_ids@.len() == old(arena).arena_player_ids@.len() + 1
            },
        },
        r matches Some(out) ==> outgoing_view(out@) == (match cmd {
            Command::Help => seq![(chat, help_text@)],
            Command::Join { id, secret } => join_replies(
                verify_code(old(arena).players@, db@, id@, secret@),
                chat,
                id@,
                secret@,
                old(arena).arena_player_ids@,
                old(arena).hostip@,
            ),
        }),
{
    match cmd {
        Command::Join { id, secret } => {
            if !verify_is_safe(&arena.players, db, id, secret) {
                return None;
            }
        },
        Command::Help => {},
    }
    Some(answer(arena, db, chat, cmd, help_text))
}

} // verus!
