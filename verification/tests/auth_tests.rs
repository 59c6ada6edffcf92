use ctf_arena::auth::{try_verify, verify, verify_is_safe};
use ctf_arena::digest::make_key;
use ctf_arena::hashdb::{read_db, DbError, HashDb};
use ctf_arena::roster::{is_player_joined, is_room_full, Players};

/// SHA-224 of "abc", the standard test vector.
const ABC_KEY: &str = "23097d223405d8228642a477bda255b32aadbce4bda0b3f7e36c9da7";

fn s(x: &str) -> String {
    x.to_string()
}

fn db_of(text: &str) -> HashDb {
    let mut db = HashDb::new();
    read_db(&mut db, text.as_bytes()).unwrap();
    db
}

#[test]
fn key_is_hex_of_sha224_of_identity_then_secret() {
    let (bytes, text) = make_key(&s("a"), &s("bc"));
    assert_eq!(text, ABC_KEY);
    assert_eq!(bytes, ABC_KEY.as_bytes().to_vec());
    let (_, other) = make_key(&s("bc"), &s("a"));
    assert_ne!(other, ABC_KEY);
}

#[test]
fn database_pieces_are_split_and_lower_cased() {
    let mut db = HashDb::new();
    assert_eq!(read_db(&mut db, b"AB\tcd ef\n"), Ok(()));
    assert_eq!(db.len(), 4);
    assert_eq!(db.entry(0), &b"ab".to_vec());
    assert_eq!(db.entry(1), &b"cd".to_vec());
    assert_eq!(db.entry(2), &b"ef".to_vec());
    assert_eq!(db.entry(3), &Vec::<u8>::new());
}

#[test]
fn empty_database_file_gives_one_empty_entry() {
    let mut db = HashDb::new();
    assert_eq!(read_db(&mut db, b""), Ok(()));
    assert_eq!(db.len(), 1);
    assert_eq!(db.entry(0).len(), 0);
}

#[test]
fn invalid_utf8_is_refused_after_the_pieces_before_it() {
    let mut db = db_of("x");
    assert_eq!(
        read_db(&mut db, &[b'O', b'k', b'\n', 0xff, 0xfe, b' ', b'z']),
        Err(DbError::InvalidText)
    );
    assert_eq!(db.len(), 2);
    assert_eq!(db.entry(0), &b"x".to_vec());
    assert_eq!(db.entry(1), &b"ok".to_vec());
}

#[test]
fn lookup_finds_a_key_and_misses_others() {
    let key = ABC_KEY.as_bytes();
    let other = "ffffffffffffffffffffffffffffffffffffffffffffffffffffffff";
    let db = db_of(&format!("{}\n{}", ABC_KEY.to_uppercase(), other));
    assert_eq!(db.search(key), Ok(0));
    let db2 = db_of(other);
    assert_eq!(db2.search(key), Err(0));
    assert_eq!(HashDb::new().search(key), Err(0));
    assert!(HashDb::new().search_is_safe(b"short"));
}

#[test]
fn lookup_follows_the_halving_probes() {
    let other = "ffffffffffffffffffffffffffffffffffffffffffffffffffffffff";
    // The search probes the middle entries first and never reaches a key
    // that sits after a non-matching middle entry.
    let db = db_of(&format!("{}\n{}\n{}", other, other, ABC_KEY));
    assert_eq!(db.search(ABC_KEY.as_bytes()), Err(0));
    let db = db_of(&format!("{}\n{}\n{}", ABC_KEY, ABC_KEY, other));
    assert_eq!(db.search(ABC_KEY.as_bytes()), Ok(1));
}

#[test]
fn short_entries_make_a_lookup_unsafe() {
    // A trailing newline leaves an empty last entry.
    let db = db_of(&format!("{}\n{}\n", ABC_KEY, ABC_KEY));
    assert!(!db.search_is_safe(ABC_KEY.as_bytes()));
    let db = db_of(&format!("{}\n", ABC_KEY));
    assert!(!db.search_is_safe(ABC_KEY.as_bytes()));
    let db = db_of(&format!("{}\n{}\n{}\n", ABC_KEY, ABC_KEY, ABC_KEY));
    assert!(db.search_is_safe(b"ffffffffffffffffffffffffffffffffffffffffffffffffffffffff"));
    // A proper prefix of the key cannot be judged against it.
    assert!(!db_of("2309").search_is_safe(ABC_KEY.as_bytes()));
}

#[test]
fn short_entries_that_differ_are_compared() {
    // The comparison stops at the first differing byte.
    let db = db_of("ffff");
    assert!(db.search_is_safe(ABC_KEY.as_bytes()));
    assert_eq!(db.search(ABC_KEY.as_bytes()), Err(0));
    let db = db_of("230f");
    assert!(db.search_is_safe(ABC_KEY.as_bytes()));
    assert_eq!(db.search(ABC_KEY.as_bytes()), Err(0));
    let p = Players::new();
    let mut hash = s("untouched");
    assert_eq!(try_verify(&p, &db_of("ffff"), &s("a"), &s("bc"), &mut hash), Some(0));
    assert_eq!(hash, "untouched");
}

#[test]
fn only_identity_then_secret_is_digested() {
    let (_, k1) = make_key(&s("ali"), &s("cepw"));
    let (_, k2) = make_key(&s("alice"), &s("pw"));
    assert_eq!(k1, k2);
    let (_, k3) = make_key(&s("a"), &s("bc"));
    let (_, k4) = make_key(&s("ab"), &s("c"));
    assert_eq!(k3, ABC_KEY);
    assert_eq!(k4, ABC_KEY);
    let db = db_of(ABC_KEY);
    let p = Players::new();
    let mut h1 = String::new();
    let mut h2 = String::new();
    assert_eq!(verify(&p, &db, &s("a"), &s("bc"), &mut h1), 1);
    assert_eq!(verify(&p, &db, &s("ab"), &s("c"), &mut h2), 1);
    assert_eq!(h1, h2);
}

#[test]
fn roster_is_a_map() {
    let mut p = Players::new();
    assert_eq!(p.len(), 0);
    assert!(!is_room_full(&p));
    p.insert(s("k1"), 1);
    p.insert(s("k1"), 1);
    assert_eq!(p.len(), 1);
    assert!(is_player_joined(&p, &s("k1")));
    assert!(!is_player_joined(&p, &s("k2")));
    p.insert(s("k2"), 1);
    p.insert(s("k3"), 1);
    assert_eq!(p.len(), 3);
    assert!(is_room_full(&p));
}

#[test]
fn verify_admits_a_known_key() {
    let p = Players::new();
    let db = db_of(ABC_KEY);
    let mut hash = s("untouched");
    assert_eq!(verify(&p, &db, &s("a"), &s("bc"), &mut hash), 1);
    assert_eq!(hash, ABC_KEY);
}

#[test]
fn verify_refuses_an_unknown_key() {
    let p = Players::new();
    let db = db_of(ABC_KEY);
    let mut hash = s("untouched");
    assert_eq!(verify(&p, &db, &s("a"), &s("bd"), &mut hash), 0);
    assert_eq!(hash, "untouched");
}

#[test]
fn verify_reports_a_player_already_joined() {
    let mut p = Players::new();
    p.insert(s(ABC_KEY), 1);
    let db = db_of(ABC_KEY);
    let mut hash = s("untouched");
    assert_eq!(verify(&p, &db, &s("a"), &s("bc"), &mut hash), 2);
    assert_eq!(hash, "untouched");
}

#[test]
fn verify_reports_a_full_room_first() {
    let mut p = Players::new();
    p.insert(s(ABC_KEY), 1);
    p.insert(s("k2"), 1);
    p.insert(s("k3"), 1);
    let mut hash = s("untouched");
    // Even with an unusable database the full room is reported.
    let db = db_of("short\n");
    assert_eq!(try_verify(&p, &db, &s("a"), &s("bc"), &mut hash), Some(3));
    assert_eq!(hash, "untouched");
}

#[test]
fn try_verify_declines_an_unsafe_lookup() {
    let p = Players::new();
    let db = db_of(&format!("{}\n", ABC_KEY));
    let mut hash = s("untouched");
    assert!(!verify_is_safe(&p, &db, &s("a"), &s("bc")));
    assert_eq!(try_verify(&p, &db, &s("a"), &s("bc"), &mut hash), None);
    assert_eq!(hash, "untouched");
    let db = db_of(ABC_KEY);
    assert_eq!(try_verify(&p, &db, &s("a"), &s("bc"), &mut hash), Some(1));
    assert_eq!(hash, ABC_KEY);
}
