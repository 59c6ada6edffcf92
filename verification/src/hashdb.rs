//! The database of credential hashes: reading it from the text of its file,
//! and looking a key up in it.

use vstd::prelude::*;
use crate::text::{lower_bytes, to_lower_bytes};

verus! {

/// The error that `String::from_utf8` returns for bytes that are not UTF-8.
#[verifier::external_type_specification]
#[verifier::external_body]
pub struct ExFromUtf8Error(std::string::FromUtf8Error);

/// `String::from_utf8` succeeds exactly on valid UTF-8, and then the string
/// holds the decoded characters.
pub assume_specification[ String::from_utf8 ](vec: Vec<u8>) -> (r: Result<
    String,
    std::string::FromUtf8Error,
>)
    ensures
        r is Ok <==> vstd::utf8::valid_utf8(vec@),
        r matches Ok(s) ==> s@ == vstd::utf8::decode_utf8(vec@),
;

/// The number of leading bytes of a key that a lookup compares.
pub const KEY_LEN: usize = 56;

/// Bytes that separate the entries of the database file: newline, tab and
/// space.
pub open spec fn is_separator(b: u8) -> bool {
    b == 10 || b == 9 || b == 32
}

/// The pieces of `b` between separators, in order, as `split` on a byte
/// slice yields them: `n` separators give `n + 1` pieces, some of them
/// possibly empty.
pub open spec fn split_fields(b: Seq<u8>) -> Seq<Seq<u8>>
    decreases b.len(),
{
    if b.len() == 0 {
        seq![Seq::empty()]
    } else {
        let f = split_fields(b.drop_last());
        if is_separator(b.last()) {
            f.push(Seq::empty())
        } else {
            f.update(f.len() - 1, f.last().push(b.last()))
        }
    }
}

pub proof fn lemma_split_fields_nonempty(b: Seq<u8>)
    ensures
        split_fields(b).len() >= 1,
    decreases b.len(),
{
    if b.len() > 0 {
        lemma_split_fields_nonempty(b.drop_last());
    }
}

/// No piece of the text holds a separator, and there is one piece more than
/// there are separators.
pub proof fn fields_split_at_every_separator(b: Seq<u8>)
    ensures
        forall|i: int, k: int|
            0 <= i < split_fields(b).len() && 0 <= k < split_fields(b)[i].len() ==> !is_separator(
                #[trigger] split_fields(b)[i][k],
            ),
        split_fields(b).len() == 1 + b.filter(|x: u8| is_separator(x)).len(),
        forall|i: int, k: int|
            0 <= i < split_fields(b).len() && 0 <= k < split_fields(b)[i].len() ==> {
                let c = #[trigger] split_fields(b)[i][k];
                c != 10 && c != 9 && c != 32
            },
    decreases b.len(),
{
    reveal_with_fuel(Seq::filter, 1);
    if b.len() > 0 {
        fields_split_at_every_separator(b.drop_last());
        lemma_split_fields_nonempty(b.drop_last());
        let f = split_fields(b.drop_last());
        let g = split_fields(b);
        if !is_separator(b.last()) {
            assert forall|i: int, k: int|
                0 <= i < g.len() && 0 <= k < g[i].len() implies !is_separator(#[trigger] g[i][k]) by {
                if i == f.len() - 1 {
                    if k < f[i].len() {
                        assert(g[i][k] == f[i][k]);
                    }
                } else {
                    assert(g[i] == f[i]);
                }
            }
        } else {
            assert forall|i: int, k: int|
                0 <= i < g.len() && 0 <= k < g[i].len() implies !is_separator(#[trigger] g[i][k]) by {
                assert(g[i] == f[i]);
            }
        }
    }
}

/// The entries that a file's text adds to the database: its pieces, with
/// ASCII letters lower-cased.
pub open spec fn db_entries_of(text: Seq<u8>) -> Seq<Seq<u8>> {
    split_fields(text).map_values(|f: Seq<u8>| lower_bytes(f))
}

/// Every piece of the text is valid UTF-8.
pub open spec fn all_fields_utf8(text: Seq<u8>) -> bool {
    forall|i: int|
        0 <= i < split_fields(text).len() ==> vstd::utf8::valid_utf8(#[trigger] split_fields(text)[i])
}

/// Why a database file was refused.
#[derive(Debug, Clone, Copy, PartialEq, Eq, Structural)]
pub enum DbError {
    /// A piece of the file is not valid UTF-8.
    InvalidText,
}

/// The hash database: one byte string per entry, in file order.
pub struct HashDb {
    entries: Vec<Vec<u8>>,
}

pub open spec fn views_of(v: Seq<Vec<u8>>) -> Seq<Seq<u8>> {
    v.map_values(|e: Vec<u8>| e@)
}

impl View for HashDb {
    type V = Seq<Seq<u8>>;

    closed spec fn view(&self) -> Seq<Seq<u8>> {
        views_of(self.entries@)
    }
}

impl HashDb {
    /// An empty database.
    pub fn new() -> (r: HashDb)
        ensures
            r@ == Seq::<Seq<u8>>::empty(),
    {
        let r = HashDb { entries: Vec::new() };
        assert(r@ =~= Seq::<Seq<u8>>::empty());
        r
    }

    /// A database holding the given entries, in order.
    pub fn from_entries(entries: Vec<Vec<u8>>) -> (r: HashDb)
        ensures
            r@ == views_of(entries@),
    {
        HashDb { entries }
    }

    /// The number of entries.
    pub fn len(&self) -> (r: usize)
        ensures
            r == self@.len(),
    {
        self.entries.len()
    }

    /// Looks `target` up in the database (see `search_entries`).
    pub fn search(&self, target: &[u8]) -> (r: Result<usize, usize>)
        requires
            lookup_safe(self@, target@),
        ensures
            r == lookup(self@, target@),
    {
        search_entries(&self.entries, target)
    }

    /// Whether every comparison that looking `target` up makes reaches a
    /// verdict.
    pub fn search_is_safe(&self, target: &[u8]) -> (r: bool)
        ensures
            r == lookup_safe(self@, target@),
    {
        lookup_is_safe(&self.entries, target)
    }

    /// The entry at `i`.
    pub fn entry(&self, i: usize) -> (r: &Vec<u8>)
        requires
            i < self@.len(),
        ensures
            r@ == self@[i as int],
    {
        &self.entries[i]
    }
}

/// Splits the text of the database file into its pieces.
fn split_text(text: &[u8]) -> (r: Vec<Vec<u8>>)
    ensures
        views_of(r@) == split_fields(text@),
{
    let mut done: Vec<Vec<u8>> = Vec::new();
    let mut cur: Vec<u8> = Vec::new();
    let mut i: usize = 0;
    while i < text.len()
        invariant
            i <= text@.len(),
            views_of(done@).push(cur@) == split_fields(text@.subrange(0, i as int)),
        decreases text@.len() - i,
    {
        let b = text[i];
        let ghost pre = text@.subrange(0, i + 1);
        proof {
            assert(pre.drop_last() =~= text@.subrange(0, i as int));
            assert(pre.last() == b);
            lemma_split_fields_nonempty(pre.drop_last());
        }
        if b == 10 || b == 9 || b == 32 {
            let piece = cur;
            done.push(piece);
            cur = Vec::new();
            assert(views_of(done@).push(cur@) =~= split_fields(pre));
        } else {
            cur.push(b);
            assert(views_of(done@).push(cur@) =~= split_fields(pre));
        }
        i = i + 1;
    }
    assert(text@.subrange(0, text@.len() as int) =~= text@);
    done.push(cur);
    assert(views_of(done@) =~= split_fields(text@));
    done
}

/// The index of the first piece of the text that is not valid UTF-8 (the
/// number of pieces when there is none).
pub open spec fn first_invalid_field(text: Seq<u8>) -> int {
    let f = split_fields(text);
    if all_fields_utf8(text) {
        f.len() as int
    } else {
        choose|i: int|
            0 <= i < f.len() && !vstd::utf8::valid_utf8(#[trigger] f[i]) && forall|j: int|
                0 <= j < i ==> vstd::utf8::valid_utf8(#[trigger] f[j])
    }
}

/// Reads the database file's text into `db`: each piece between separators
/// becomes an entry, ASCII letters lower-cased, appended in order. At the
/// first piece that is not valid UTF-8 the reading stops and is refused;
/// the pieces before it have been appended.
pub fn read_db(db: &mut HashDb, text: &[u8]) -> (r: Result<(), DbError>)
    ensures
        r is Ok <==> all_fields_utf8(text@),
        r is Ok ==> final(db)@ == old(db)@ + db_entries_of(text@),
        r is Err ==> {
            let i = first_invalid_field(text@);
            &&& 0 <= i < split_fields(text@).len()
            &&& !vstd::utf8::valid_utf8(split_fields(text@)[i])
            &&& forall|j: int| 0 <= j < i ==> vstd::utf8::valid_utf8(#[trigger] split_fields(text@)[j])
            &&& final(db)@ == old(db)@ + db_entries_of(text@).subrange(0, i)
        },
{
    let fields = split_text(text);
    let n = fields.len();
    let ghost old_db = db@;
    let mut k: usize = 0;
    while k < n
        invariant
            n == fields@.len(),
            views_of(fields@) == split_fields(text@),
            k <= n,
            forall|j: int| 0 <= j < k ==> vstd::utf8::valid_utf8(#[trigger] split_fields(text@)[j]),
            old_db == old(db)@,
            db@ == old_db + db_entries_of(text@).subrange(0, k as int),
        decreases n - k,
    {
        let piece = fields[k].clone();
        assert(piece@ == split_fields(text@)[k as int]);
        match String::from_utf8(piece) {
            Ok(_) => {},
            Err(_) => {
                proof {
                    let f = split_fields(text@);
                    assert(!all_fields_utf8(text@));
                    assert(0 <= k < f.len() && !vstd::utf8::valid_utf8(f[k as int]) && forall|j: int|
                        0 <= j < k ==> vstd::utf8::valid_utf8(#[trigger] f[j]));
                    assert(exists|i: int|
                        0 <= i < f.len() && !vstd::utf8::valid_utf8(#[trigger] f[i]) && forall|j: int|
                            0 <= j < i ==> vstd::utf8::valid_utf8(#[trigger] f[j]));
                    let i = first_invalid_field(text@);
                    assert(0 <= i < f.len() && !vstd::utf8::valid_utf8(f[i]));
                    if i < k {
                        assert(vstd::utf8::valid_utf8(f[i]));
                    } else if i > k {
                        assert(vstd::utf8::valid_utf8(f[k as int]));
                    }
                    assert(i == k);
                }
                return Err(DbError::InvalidText);
            },
        }
        let lowered = to_lower_bytes(fields[k].as_slice());
        let ghost prev = db@;
        proof {
            assert(views_of(fields@)[k as int] == fields@[k as int]@);
            assert(db_entries_of(text@)[k as int] == lowered@);
        }
        db.entries.push(lowered);
        assert(db@ =~= prev.push(lowered@));
        assert(db@ =~= old_db + db_entries_of(text@).subrange(0, k + 1));
        k = k + 1;
    }
    assert(db_entries_of(text@).subrange(0, n as int) =~= db_entries_of(text@));
    Ok(())
}


/// An entry matches a key when both have at least `KEY_LEN` bytes and
/// their first `KEY_LEN` bytes agree.
pub open spec fn key_matches(target: Seq<u8>, probe: Seq<u8>) -> bool {
    &&& target.len() >= KEY_LEN
    &&& probe.len() >= KEY_LEN
    &&& forall|k: int| 0 <= k < KEY_LEN ==> #[trigger] target[k] == probe[k]
}

/// The two differ at byte `k`, before either ends and within the first
/// `KEY_LEN` bytes.
pub open spec fn differs_at(target: Seq<u8>, probe: Seq<u8>, k: int) -> bool {
    0 <= k < KEY_LEN && k < target.len() && k < probe.len() && target[k] != probe[k]
}

/// The byte-by-byte comparison of the first `KEY_LEN` bytes reaches a
/// verdict without reading past the end of either: both are long enough,
/// or they differ before the shorter one ends. (The comparison stops at the
/// first differing byte.)
pub open spec fn comparable(target: Seq<u8>, probe: Seq<u8>) -> bool {
    (target.len() >= KEY_LEN && probe.len() >= KEY_LEN) || exists|k: int|
        #[trigger] differs_at(target, probe, k)
}

/// The halving search of `slice::binary_search_by` with a comparator that
/// answers `Equal` for a matching entry and `Greater` otherwise: from the
/// window `[base, base + size)`, probe `base + size / 2`, keep it as the new
/// base when it matches, and shrink the window by half.
pub open spec fn search_base(entries: Seq<Seq<u8>>, target: Seq<u8>, base: int, size: int) -> int
    decreases size,
{
    if size <= 1 {
        base
    } else {
        let mid = base + size / 2;
        search_base(
            entries,
            target,
            if key_matches(target, entries[mid]) {
                mid
            } else {
                base
            },
            size - size / 2,
        )
    }
}

/// Every comparison of `target` with an entry that the search probes from
/// this window reaches a verdict.
pub open spec fn probes_comparable(
    entries: Seq<Seq<u8>>,
    target: Seq<u8>,
    base: int,
    size: int,
) -> bool
    decreases size,
{
    if size <= 1 {
        comparable(target, entries[base])
    } else {
        let mid = base + size / 2;
        comparable(target, entries[mid]) && probes_comparable(
            entries,
            target,
            if key_matches(target, entries[mid]) {
                mid
            } else {
                base
            },
            size - size / 2,
        )
    }
}

/// Every comparison that a lookup of `target` makes reaches a verdict; a
/// lookup in an empty database compares nothing.
pub open spec fn lookup_safe(entries: Seq<Seq<u8>>, target: Seq<u8>) -> bool {
    entries.len() == 0 || probes_comparable(entries, target, 0, entries.len() as int)
}

/// The outcome of looking `target` up: `Ok` with the index where the search
/// ends when that entry matches, `Err` with that index otherwise (`Err(0)`
/// for an empty database).
pub open spec fn lookup(entries: Seq<Seq<u8>>, target: Seq<u8>) -> Result<usize, usize> {
    if entries.len() == 0 {
        Err(0)
    } else {
        let b = search_base(entries, target, 0, entries.len() as int);
        if key_matches(target, entries[b]) {
            Ok(b as usize)
        } else {
            Err(b as usize)
        }
    }
}

pub proof fn lemma_search_base_in_window(entries: Seq<Seq<u8>>, target: Seq<u8>, base: int, size: int)
    requires
        size >= 1,
    ensures
        base <= search_base(entries, target, base, size) < base + size,
    decreases size,
{
    if size > 1 {
        let mid = base + size / 2;
        let nb = if key_matches(target, entries[mid]) {
            mid
        } else {
            base
        };
        lemma_search_base_in_window(entries, target, nb, size - size / 2);
    }
}

/// Once the window's base matches the key, the halving search only moves to
/// another matching entry.
proof fn lemma_matching_base_kept(entries: Seq<Seq<u8>>, target: Seq<u8>, base: int, size: int)
    requires
        key_matches(target, entries[base]),
    ensures
        key_matches(target, entries[search_base(entries, target, base, size)]),
    decreases size,
{
    if size > 1 {
        let mid = base + size / 2;
        let nb = if key_matches(target, entries[mid]) {
            mid
        } else {
            base
        };
        lemma_matching_base_kept(entries, target, nb, size - size / 2);
    }
}

/// The entry at the middle of the database is the first one that the
/// halving search probes: when it agrees with the key on the first 56
/// bytes, the key is found. In a database of two entries, a key held at
/// index 1 is found at index 1.
pub proof fn middle_match_is_found(entries: Seq<Seq<u8>>, target: Seq<u8>)
    requires
        entries.len() > 0,
        target.len() >= 56,
        entries[entries.len() as int / 2].len() >= 56,
        forall|k: int| 0 <= k < 56 ==> target[k] == #[trigger] entries[entries.len() as int / 2][k],
    ensures
        lookup(entries, target) is Ok,
        entries.len() == 2 ==> lookup(entries, target) == Ok::<usize, usize>(1),
{
    let n = entries.len() as int;
    let mid = n / 2;
    assert(key_matches(target, entries[mid]));
    if n > 1 {
        lemma_matching_base_kept(entries, target, mid, n - n / 2);
        assert(search_base(entries, target, 0, n) == search_base(entries, target, mid, n - n / 2));
    } else {
        assert(search_base(entries, target, 0, n) == 0);
    }
    if n == 2 {
        assert(search_base(entries, target, 1, 1) == 1);
    }
}

/// Where no entry after the window's base agrees with the key, the halving
/// search never leaves the base.
proof fn lemma_base_kept_without_later_match(entries: Seq<Seq<u8>>, target: Seq<u8>, base: int, size: int)
    requires
        forall|i: int| base < i < base + size ==> !key_matches(target, #[trigger] entries[i]),
    ensures
        search_base(entries, target, base, size) == base,
    decreases size,
{
    if size > 1 {
        let mid = base + size / 2;
        assert(!key_matches(target, entries[mid]));
        lemma_base_kept_without_later_match(entries, target, base, size - size / 2);
    }
}

/// A non-matching probe sends the search towards the front: when the first
/// entry agrees with the key on its first 56 bytes and no other entry does,
/// the key is found at index 0.
pub proof fn lone_first_match_is_found(entries: Seq<Seq<u8>>, target: Seq<u8>)
    requires
        entries.len() > 0,
        target.len() >= 56,
        entries[0].len() >= 56,
        forall|k: int| 0 <= k < 56 ==> target[k] == #[trigger] entries[0][k],
        forall|i: int|
            0 < i < entries.len() ==> #[trigger] entries[i].len() < 56 || exists|k: int|
                0 <= k < 56 && target[k] != entries[i][k],
    ensures
        lookup(entries, target) == Ok::<usize, usize>(0),
{
    assert forall|i: int| 0 < i < entries.len() implies !key_matches(target, #[trigger] entries[i]) by {
        if entries[i].len() >= 56 {
            let k = choose|k: int| 0 <= k < 56 && target[k] != entries[i][k];
            assert(target[k] != entries[i][k]);
        }
    }
    lemma_base_kept_without_later_match(entries, target, 0, entries.len() as int);
    assert(key_matches(target, entries[0]));
}

/// What a lookup finds agrees with the key: a found index lies in the
/// database, and both the key and that entry have at least 56 bytes, equal
/// one for one. So a key that no entry agrees with is never found.
pub proof fn found_entry_agrees_with_key(entries: Seq<Seq<u8>>, target: Seq<u8>)
    requires
        entries.len() <= usize::MAX,
    ensures
        lookup(entries, target) matches Ok(i) ==> {
            &&& i < entries.len()
            &&& target.len() >= 56
            &&& entries[i as int].len() >= 56
            &&& forall|k: int| 0 <= k < 56 ==> target[k] == #[trigger] entries[i as int][k]
        },
{
    if entries.len() > 0 {
        lemma_search_base_in_window(entries, target, 0, entries.len() as int);
    }
}

/// Reading a file adds one entry per piece, in order, and entry `k` is piece
/// `k` with every ASCII capital (a byte from 65 to 90) raised by 32, every
/// other byte kept: no entry that reading adds holds an ASCII capital.
pub proof fn entries_are_lowered_pieces(text: Seq<u8>)
    ensures
        db_entries_of(text).len() == split_fields(text).len(),
        forall|k: int|
            0 <= k < split_fields(text).len() ==> #[trigger] db_entries_of(text)[k].len()
                == split_fields(text)[k].len(),
        forall|k: int, j: int|
            0 <= k < split_fields(text).len() && 0 <= j < split_fields(text)[k].len()
                ==> #[trigger] db_entries_of(text)[k][j] == if 65 <= split_fields(text)[k][j] <= 90 {
                (split_fields(text)[k][j] + 32) as u8
            } else {
                split_fields(text)[k][j]
            },
        forall|k: int, j: int|
            0 <= k < db_entries_of(text).len() && 0 <= j < db_entries_of(text)[k].len() ==> !(65
                <= #[trigger] db_entries_of(text)[k][j] <= 90),
{
}

/// Compares the first `KEY_LEN` bytes of `target` and `probe`, stopping at
/// the first byte where they differ: whether they all agree.
pub fn prefix_matches(target: &[u8], probe: &[u8]) -> (r: bool)
    requires
        comparable(target@, probe@),
    ensures
        r == key_matches(target@, probe@),
{
    let mut k: usize = 0;
    while k < KEY_LEN
        invariant
            comparable(target@, probe@),
            k <= KEY_LEN,
            forall|j: int| 0 <= j < k ==> target@[j] == probe@[j],
            k <= target@.len(),
            k <= probe@.len(),
        decreases KEY_LEN - k,
    {
        proof {
            if k >= target@.len() || k >= probe@.len() {
                let j = choose|j: int| #[trigger] differs_at(target@, probe@, j);
                assert(target@[j] == probe@[j]);
            }
        }
        if target[k] != probe[k] {
            assert(differs_at(target@, probe@, k as int));
            return false;
        }
        k = k + 1;
    }
    true
}

/// Whether comparing the first `KEY_LEN` bytes of `target` and `probe`
/// reaches a verdict before the end of either.
pub fn comparison_is_safe(target: &[u8], probe: &[u8]) -> (r: bool)
    ensures
        r == comparable(target@, probe@),
{
    let mut k: usize = 0;
    while k < KEY_LEN && k < target.len() && k < probe.len()
        invariant
            k <= KEY_LEN,
            k <= target@.len(),
            k <= probe@.len(),
            forall|j: int| 0 <= j < k ==> target@[j] == probe@[j],
        decreases KEY_LEN - k,
    {
        if target[k] != probe[k] {
            assert(differs_at(target@, probe@, k as int));
            return true;
        }
        k = k + 1;
    }
    proof {
        if k < KEY_LEN {
            assert forall|j: int| !#[trigger] differs_at(target@, probe@, j) by {
                if differs_at(target@, probe@, j) {
                    assert(target@[j] == probe@[j]);
                }
            }
        }
    }
    k == KEY_LEN
}

/// Looks `target` up among `entries` with the halving search of
/// `slice::binary_search_by`, the comparator being `Equal` on a matching
/// entry and `Greater` on any other.
pub fn search_entries(entries: &Vec<Vec<u8>>, target: &[u8]) -> (r: Result<usize, usize>)
    requires
        lookup_safe(views_of(entries@), target@),
    ensures
        r == lookup(views_of(entries@), target@),
{
    let ghost es = views_of(entries@);
    let mut size = entries.len();
    if size == 0 {
        return Err(0);
    }
    let n = entries.len();
    let mut base: usize = 0;
    while size > 1
        invariant
            n == entries@.len(),
            es == views_of(entries@),
            es.len() == entries@.len(),
            1 <= size,
            base + size <= entries@.len(),
            search_base(es, target@, 0, es.len() as int) == search_base(
                es,
                target@,
                base as int,
                size as int,
            ),
            probes_comparable(es, target@, base as int, size as int),
        decreases size,
    {
        let half = size / 2;
        let mid = base + half;
        assert(es[mid as int] == entries@[mid as int]@);
        if prefix_matches(target, entries[mid].as_slice()) {
            base = mid;
        }
        size = size - half;
    }
    assert(es[base as int] == entries@[base as int]@);
    if prefix_matches(target, entries[base].as_slice()) {
        Ok(base)
    } else {
        Err(base)
    }
}

/// Whether every comparison that looking `target` up makes reaches a
/// verdict.
pub fn lookup_is_safe(entries: &Vec<Vec<u8>>, target: &[u8]) -> (r: bool)
    ensures
        r == lookup_safe(views_of(entries@), target@),
{
    let ghost es = views_of(entries@);
    let mut size = entries.len();
    if size == 0 {
        return true;
    }
    let n = entries.len();
    let mut base: usize = 0;
    while size > 1
        invariant
            n == entries@.len(),
            es == views_of(entries@),
            es.len() == entries@.len(),
            1 <= size,
            base + size <= entries@.len(),
            probes_comparable(es, target@, 0, es.len() as int) == probes_comparable(
                es,
                target@,
                base as int,
                size as int,
            ),
        decreases size,
    {
        let half = size / 2;
        let mid = base + half;
        assert(es[mid as int] == entries@[mid as int]@);
        if !comparison_is_safe(target, entries[mid].as_slice()) {
            return false;
        }
        if prefix_matches(target, entries[mid].as_slice()) {
            base = mid;
        }
        size = size - half;
    }
    assert(es[base as int] == entries@[base as int]@);
    comparison_is_safe(target, entries[base].as_slice())
}

/// A lookup that answers `Ok(i)` has found a matching entry `i`.
pub proof fn lookup_finds_only_matches(entries: Seq<Seq<u8>>, target: Seq<u8>)
    requires
        entries.len() <= usize::MAX,
    ensures
        lookup(entries, target) matches Ok(i) ==> i < entries.len() && key_matches(
            target,
            entries[i as int],
        ),
{
    if entries.len() > 0 {
        lemma_search_base_in_window(entries, target, 0, entries.len() as int);
    }
}

proof fn lemma_search_keeps_match(entries: Seq<Seq<u8>>, target: Seq<u8>, base: int, size: int)
    requires
        key_matches(target, entries[base]),
    ensures
        key_matches(target, entries[search_base(entries, target, base, size)]),
    decreases size,
{
    if size > 1 {
        let mid = base + size / 2;
        let nb = if key_matches(target, entries[mid]) {
            mid
        } else {
            base
        };
        lemma_search_keeps_match(entries, target, nb, size - size / 2);
    }
}

/// When the first entry matches, the lookup succeeds; in particular, when
/// the matching entries come before all the others (the order in which
/// `binary_search_by` is meant to be used) and some entry matches, the
/// lookup finds one.
pub proof fn lookup_finds_leading_matches(entries: Seq<Seq<u8>>, target: Seq<u8>)
    requires
        entries.len() > 0,
        key_matches(target, entries[0])
            || ((exists|i: int| 0 <= i < entries.len() && key_matches(target, #[trigger] entries[i]))
            && (forall|i: int, j: int|
            0 <= i < j < entries.len() && key_matches(target, #[trigger] entries[j]) ==> key_matches(
                target,
                #[trigger] entries[i],
            ))),
    ensures
        lookup(entries, target) is Ok,
{
    if !key_matches(target, entries[0]) {
        let i = choose|i: int| 0 <= i < entries.len() && key_matches(target, #[trigger] entries[i]);
        if i > 0 {
            assert(key_matches(target, entries[0]));
        }
    }
    lemma_search_keeps_match(entries, target, 0, entries.len() as int);
}

} // verus!
