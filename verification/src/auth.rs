//! Admission of a player: the room must have space, the player must not
//! have joined yet, and the key of the credentials must be in the database.

use vstd::prelude::*;
use crate::digest::{key_bytes, make_key, player_key};
use crate::hashdb::{lookup, lookup_safe, HashDb};
use crate::roster::{is_player_joined, is_room_full, Players};

verus! {

/// The answer to a request to join: 3 when the room is full (more than two
/// players), 2 when the player has joined already, 1 when the key is found
/// in the database, 0 when it is not.
pub open spec fn verify_code(
    players: Map<Seq<char>, u8>,
    db: Seq<Seq<u8>>,
    id: Seq<char>,
    secret: Seq<char>,
) -> u8 {
    if players.dom().len() > 2 {
        3
    } else if players.contains_key(player_key(id, secret)) {
        2
    } else if lookup(db, key_bytes(id, secret)) is Ok {
        1
    } else {
        0
    }
}

/// Every comparison that the lookup of a request to join makes, when it
/// makes one, reaches a verdict (no entry is a proper prefix of the key).
pub open spec fn verify_safe(
    players: Map<Seq<char>, u8>,
    db: Seq<Seq<u8>>,
    id: Seq<char>,
    secret: Seq<char>,
) -> bool {
    players.dom().len() <= 2 && !players.contains_key(player_key(id, secret)) ==> lookup_safe(
        db,
        key_bytes(id, secret),
    )
}

/// Looks the key `search_data` up in the database: 1, with `hash_res` set
/// to the key, when it is found; 0, with `hash_res` untouched, otherwise.
pub fn is_player_valid(db: &HashDb, hash_res: &mut String, search_data: &String) -> (r: u8)
    requires
        lookup_safe(db@, vstd::utf8::encode_utf8(search_data@)),
    ensures
        r == (if lookup(db@, vstd::utf8::encode_utf8(search_data@)) is Ok {
            1u8
        } else {
            0u8
        }),
        r == 1 ==> final(hash_res)@ == search_data@,
        r == 0 ==> final(hash_res)@ == old(hash_res)@,
{
    let target = search_data.as_str().as_bytes();
    match db.search(target) {
        Ok(_) => {
            *hash_res = search_data.clone();
            1
        },
        Err(_) => 0,
    }
}


/// Answers a request to join the arena with the identity `id` and the
/// secret `secret` (see `verify_code`). On 1, `hash_res` receives the
/// player's key; on any other answer it is left as it was.
pub fn verify(
    players: &Players,
    db: &HashDb,
    id: &String,
    secret: &String,
    hash_res: &mut String,
) -> (r: u8)
    requires
        players.wf(),
        verify_safe(players@, db@, id@, secret@),
    ensures
        r == verify_code(players@, db@, id@, secret@),
        r == 1 ==> final(hash_res)@ == player_key(id@, secret@),
        r != 1 ==> final(hash_res)@ == old(hash_res)@,
{
    if is_room_full(players) {
        return 3;
    }
    let (search_bytes, search_data) = make_key(id, secret);
    if is_player_joined(players, &search_data) {
        return 2;
    }
    proof {
        crate::digest::lemma_key_shape(id@, secret@);
        crate::text::lemma_ascii_text_encoding(key_bytes(id@, secret@));
    }
    is_player_valid(db, hash_res, &search_data)
}

/// `verify` where the lookup it would make is safe; `None`, with
/// `hash_res` untouched, where that lookup would compare an entry that is a
/// proper prefix of the key (an entry that the request cannot be judged
/// against).
pub fn try_verify(
    players: &Players,
    db: &HashDb,
    id: &String,
    secret: &String,
    hash_res: &mut String,
) -> (r: Option<u8>)
    requires
        players.wf(),
    ensures
        r is None <==> !verify_safe(players@, db@, id@, secret@),
        r matches Some(c) ==> c == verify_code(players@, db@, id@, secret@),
        r == Some(1u8) ==> final(hash_res)@ == player_key(id@, secret@),
        r != Some(1u8) ==> final(hash_res)@ == old(hash_res)@,
{
    if verify_is_safe(players, db, id, secret) {
        Some(verify(players, db, id, secret, hash_res))
    } else {
        None
    }
}

/// Whether the lookup that a request to join would make is safe.
pub fn verify_is_safe(players: &Players, db: &HashDb, id: &String, secret: &String) -> (r: bool)
    requires
        players.wf(),
    ensures
        r == verify_safe(players@, db@, id@, secret@),
{
    if is_room_full(players) {
        return true;
    }
    let (search_bytes, search_data) = make_key(id, secret);
    if is_player_joined(players, &search_data) {
        return true;
    }
    db.search_is_safe(search_bytes.as_slice())
}

/// Once a player has been admitted, the same identity and secret are never
/// admitted again: the answer is "already joined", or "room full".
pub proof fn rejoin_is_refused(
    players: Map<Seq<char>, u8>,
    db: Seq<Seq<u8>>,
    id: Seq<char>,
    secret: Seq<char>,
)
    ensures
        verify_code(players.insert(player_key(id, secret), 1), db, id, secret) == 2 || verify_code(
            players.insert(player_key(id, secret), 1),
            db,
            id,
            secret,
        ) == 3,
{
}

/// An admission adds exactly one player to a room of at most two, so the
/// room never holds more than three players.
pub proof fn admission_adds_one_player(
    players: Map<Seq<char>, u8>,
    db: Seq<Seq<u8>>,
    id: Seq<char>,
    secret: Seq<char>,
)
    requires
        players.dom().finite(),
        verify_code(players, db, id, secret) == 1,
    ensures
        players.insert(player_key(id, secret), 1).dom().len() == players.dom().len() + 1,
        players.insert(player_key(id, secret), 1).dom().len() <= 3,
{
    assert(players.insert(player_key(id, secret), 1).dom() == players.dom().insert(player_key(id, secret)));
}

/// Only the identity followed by the secret is digested, with no separator
/// between them: two requests whose identity and secret join to the same
/// text get the same key, the same answer and the same safety verdict.
pub proof fn verify_depends_only_on_concatenation(
    players: Map<Seq<char>, u8>,
    db: Seq<Seq<u8>>,
    id1: Seq<char>,
    secret1: Seq<char>,
    id2: Seq<char>,
    secret2: Seq<char>,
)
    requires
        id1 + secret1 == id2 + secret2,
    ensures
        player_key(id1, secret1) == player_key(id2, secret2),
        verify_code(players, db, id1, secret1) == verify_code(players, db, id2, secret2),
        verify_safe(players, db, id1, secret1) == verify_safe(players, db, id2, secret2),
{
}

} // verus!
