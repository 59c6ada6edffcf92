//! The players admitted to the arena, keyed by their credential key.

use vstd::prelude::*;

verus! {

/// A map from player keys to a mark, as a `HashMap<String, u8>` holds them;
/// the keys are kept in insertion order in a vector, each once.
pub struct Players {
    entries: Vec<(String, u8)>,
    model: Ghost<Map<Seq<char>, u8>>,
}

impl View for Players {
    type V = Map<Seq<char>, u8>;

    closed spec fn view(&self) -> Map<Seq<char>, u8> {
        self.model@
    }
}

impl Players {
    /// The vector and the map agree, and no key is held twice.
    pub closed spec fn wf(&self) -> bool {
        &&& self.model@.dom().finite()
        &&& self.model@.dom().len() == self.entries@.len()
        &&& forall|i: int|
            0 <= i < self.entries@.len() ==> self.model@.contains_key(#[trigger] self.entries@[i].0@)
                && self.model@[self.entries@[i].0@] == self.entries@[i].1
        &&& forall|i: int, j: int|
            0 <= i < self.entries@.len() && 0 <= j < self.entries@.len() && i != j
                ==> #[trigger] self.entries@[i].0@ != #[trigger] self.entries@[j].0@
        &&& forall|k: Seq<char>|
            #[trigger] self.model@.contains_key(k) ==> exists|i: int|
                0 <= i < self.entries@.len() && self.entries@[i].0@ == k
    }

    /// A well-formed roster holds finitely many keys.
    pub proof fn lemma_finite(&self)
        requires
            self.wf(),
        ensures
            self@.dom().finite(),
    {
    }

    /// No players.
    pub fn new() -> (r: Players)
        ensures
            r.wf(),
            r@ == Map::<Seq<char>, u8>::empty(),
    {
        Players { entries: Vec::new(), model: Ghost(Map::empty()) }
    }

    /// The number of players.
    pub fn len(&self) -> (r: usize)
        requires
            self.wf(),
        ensures
            r == self@.dom().len(),
    {
        self.entries.len()
    }

    fn find(&self, key: &String) -> (r: Option<usize>)
        requires
            self.wf(),
        ensures
            r matches Some(i) ==> i < self.entries@.len() && self.entries@[i as int].0@ == key@,
            r is None ==> !self@.contains_key(key@),
    {
        let mut i: usize = 0;
        while i < self.entries.len()
            invariant
                self.wf(),
                i <= self.entries@.len(),
                forall|j: int| 0 <= j < i ==> self.entries@[j].0@ != key@,
            decreases self.entries@.len() - i,
        {
            if self.entries[i].0 == *key {
                return Some(i);
            }
            i = i + 1;
        }
        None
    }

    /// Whether `key` is held.
    pub fn contains_key(&self, key: &String) -> (r: bool)
        requires
            self.wf(),
        ensures
            r == self@.contains_key(key@),
    {
        match self.find(key) {
            Some(_) => true,
            None => false,
        }
    }

    /// Sets the mark of `key`, adding the key when it is not held yet.
    pub fn insert(&mut self, key: String, mark: u8)
        requires
            old(self).wf(),
        ensures
            final(self).wf(),
            final(self)@ == old(self)@.insert(key@, mark),
    {
        let ghost k = key@;
        let ghost m0 = self.model@;
        match self.find(&key) {
            Some(i) => {
                self.entries.set(i, (key, mark));
                self.model = Ghost(m0.insert(k, mark));
                assert(m0.dom().insert(k) =~= m0.dom());
                assert forall|kk: Seq<char>| #[trigger] self.model@.contains_key(kk) implies exists|j: int|
                    0 <= j < self.entries@.len() && self.entries@[j].0@ == kk by {
                    if kk != k {
                        let j = choose|j: int| 0 <= j < old(self).entries@.len() && old(self).entries@[j].0@ == kk;
                        assert(self.entries@[j].0@ == kk);
                    } else {
                        assert(self.entries@[i as int].0@ == kk);
                    }
                }
            },
            None => {
                self.entries.push((key, mark));
                self.model = Ghost(m0.insert(k, mark));
                let ghost n = self.entries@.len() - 1;
                assert forall|kk: Seq<char>| #[trigger] self.model@.contains_key(kk) implies exists|j: int|
                    0 <= j < self.entries@.len() && self.entries@[j].0@ == kk by {
                    if kk != k {
                        let j = choose|j: int| 0 <= j < old(self).entries@.len() && old(self).entries@[j].0@ == kk;
                        assert(self.entries@[j].0@ == kk);
                    } else {
                        assert(self.entries@[n].0@ == kk);
                    }
                }
                assert forall|a: int, b: int|
                    0 <= a < self.entries@.len() && 0 <= b < self.entries@.len() && a != b
                        implies #[trigger] self.entries@[a].0@ != #[trigger] self.entries@[b].0@ by {
                    if a == n {
                        assert(old(self).model@.contains_key(self.entries@[b].0@));
                    } else if b == n {
                        assert(old(self).model@.contains_key(self.entries@[a].0@));
                    }
                }
            },
        }
    }
}

/// Whether the player with this key has joined already.
pub fn is_player_joined(players: &Players, player_hash: &String) -> (r: bool)
    requires
        players.wf(),
    ensures
        r == players@.contains_key(player_hash@),
{
    players.contains_key(player_hash)
}

/// Whether the arena refuses newcomers: it does once it holds more than two
/// players.
pub fn is_room_full(players: &Players) -> (r: bool)
    requires
        players.wf(),
    ensures
        r == (players@.dom().len() > 2),
{
    players.len() > 2
}

} // verus!
