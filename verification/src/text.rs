//! Text helpers on characters and bytes: ASCII case folding, decimal and
//! hexadecimal rendering, literal substitution and comparison.

use vstd::prelude::*;

verus! {

/// `String::push` appends one character at the end of the string.
pub assume_specification[ String::push ](s: &mut String, ch: char)
    ensures
        final(s)@ == old(s)@.push(ch),
;

/// ASCII lower-casing of one byte, as `u8::to_ascii_lowercase` defines it.
pub open spec fn lower_byte(b: u8) -> u8 {
    if 65 <= b && b <= 90 {
        (b + 32) as u8
    } else {
        b
    }
}

/// ASCII lower-casing of a byte string.
pub open spec fn lower_bytes(s: Seq<u8>) -> Seq<u8> {
    Seq::new(s.len(), |i: int| lower_byte(s[i]))
}

/// Two byte strings are equal up to ASCII case.
pub open spec fn bytes_eq_ignore_case(a: Seq<u8>, b: Seq<u8>) -> bool {
    a.len() == b.len() && forall|i: int| 0 <= i < a.len() ==> lower_byte(a[i]) == lower_byte(b[i])
}

/// Two strings are equal up to ASCII case, compared byte by byte as
/// `str::eq_ignore_ascii_case` compares them.
pub open spec fn eq_ignore_case(a: Seq<char>, b: Seq<char>) -> bool {
    bytes_eq_ignore_case(vstd::utf8::encode_utf8(a), vstd::utf8::encode_utf8(b))
}

pub fn lower_byte_exec(b: u8) -> (r: u8)
    ensures
        r == lower_byte(b),
{
    if 65 <= b && b <= 90 {
        b + 32
    } else {
        b
    }
}

/// Lower-cases the ASCII letters of a byte string.
pub fn to_lower_bytes(s: &[u8]) -> (r: Vec<u8>)
    ensures
        r@ == lower_bytes(s@),
{
    let mut r: Vec<u8> = Vec::new();
    let mut i: usize = 0;
    while i < s.len()
        invariant
            i <= s@.len(),
            r@ =~= lower_bytes(s@.subrange(0, i as int)),
        decreases s@.len() - i,
    {
        r.push(lower_byte_exec(s[i]));
        i = i + 1;
        assert(r@ =~= lower_bytes(s@.subrange(0, i as int)));
    }
    assert(s@.subrange(0, s@.len() as int) =~= s@);
    r
}

/// `str::eq_ignore_ascii_case`: same byte length, and every pair of bytes
/// equal once ASCII letters are lower-cased.
pub fn eq_ignore_ascii_case(a: &str, b: &str) -> (r: bool)
    ensures
        r == eq_ignore_case(a@, b@),
{
    let x = a.as_bytes();
    let y = b.as_bytes();
    if x.len() != y.len() {
        return false;
    }
    let mut i: usize = 0;
    while i < x.len()
        invariant
            x@ == vstd::utf8::encode_utf8(a@),
            y@ == vstd::utf8::encode_utf8(b@),
            x@.len() == y@.len(),
            i <= x@.len(),
            forall|j: int| 0 <= j < i ==> lower_byte(x@[j]) == lower_byte(y@[j]),
        decreases x@.len() - i,
    {
        if lower_byte_exec(x[i]) != lower_byte_exec(y[i]) {
            return false;
        }
        i = i + 1;
    }
    true
}


/// The character of a decimal digit.
pub open spec fn digit_char(d: nat) -> char {
    (48 + d) as char
}

/// Decimal rendering of a natural number, without leading zeros, as
/// `Display` writes an unsigned integer.
pub open spec fn decimal(n: nat) -> Seq<char>
    decreases n,
{
    if n < 10 {
        seq![digit_char(n)]
    } else {
        decimal(n / 10).push(digit_char(n % 10))
    }
}

/// Appends the decimal rendering of `n` to `s`.
pub fn push_decimal(s: &mut String, n: u16)
    ensures
        final(s)@ == old(s)@ + decimal(n as nat),
    decreases n,
{
    if n >= 10 {
        push_decimal(s, n / 10);
    }
    let d: u8 = (n % 10) as u8;
    let c: char = (48u8 + d) as char;
    s.push(c);
    assert(final(s)@ =~= old(s)@ + decimal(n as nat));
}

/// The decimal rendering of `n` as a new string, as `n.to_string()` gives it.
pub fn decimal_string(n: u16) -> (r: String)
    ensures
        r@ == decimal(n as nat),
{
    let mut s = String::new();
    push_decimal(&mut s, n);
    assert(s@ =~= decimal(n as nat));
    s
}

/// The ASCII code of a lower-case hexadecimal digit.
pub open spec fn hex_digit(n: u8) -> u8 {
    if n < 10 {
        (48 + n) as u8
    } else {
        (87 + n) as u8
    }
}

/// Lower-case hexadecimal rendering of a byte string, two digits per byte,
/// high nibble first.
pub open spec fn hex_lower(b: Seq<u8>) -> Seq<u8>
    decreases b.len(),
{
    if b.len() == 0 {
        Seq::empty()
    } else {
        hex_lower(b.drop_last()) + seq![hex_digit(b.last() / 16), hex_digit(b.last() % 16)]
    }
}

/// The characters whose codes are the given ASCII bytes.
pub open spec fn ascii_text(b: Seq<u8>) -> Seq<char> {
    Seq::new(b.len(), |i: int| b[i] as char)
}

pub proof fn lemma_hex_lower_len(b: Seq<u8>)
    ensures
        hex_lower(b).len() == 2 * b.len(),
    decreases b.len(),
{
    if b.len() > 0 {
        lemma_hex_lower_len(b.drop_last());
    }
}

/// The value of a lower-case hexadecimal digit ('0' to '9', 'a' to 'f');
/// -1 for any other byte.
pub open spec fn hex_value(c: u8) -> int {
    if 48 <= c <= 57 {
        c - 48
    } else if 97 <= c <= 102 {
        c - 87
    } else {
        -1
    }
}

proof fn lemma_hex_lower_at(b: Seq<u8>, i: int)
    requires
        0 <= i < b.len(),
    ensures
        hex_lower(b).len() == 2 * b.len(),
        hex_lower(b)[2 * i] == hex_digit(b[i] / 16),
        hex_lower(b)[2 * i + 1] == hex_digit(b[i] % 16),
    decreases b.len(),
{
    lemma_hex_lower_len(b);
    lemma_hex_lower_len(b.drop_last());
    if i < b.len() - 1 {
        lemma_hex_lower_at(b.drop_last(), i);
        assert(b.drop_last()[i] == b[i]);
    }
}

/// The rendering is lower-case hexadecimal, two digits per byte, high
/// nibble first: every character is one of "0123456789abcdef", and each pair
/// of digits read back as a hexadecimal number gives the byte it renders.
pub proof fn hex_lower_reads_back(b: Seq<u8>)
    ensures
        hex_lower(b).len() == 2 * b.len(),
        forall|j: int| 0 <= j < hex_lower(b).len() ==> 0 <= hex_value(#[trigger] hex_lower(b)[j]) < 16,
        forall|i: int|
            0 <= i < b.len() ==> hex_value(hex_lower(b)[2 * i]) * 16 + hex_value(hex_lower(b)[2 * i + 1])
                == #[trigger] b[i],
{
    lemma_hex_lower_len(b);
    assert forall|i: int| 0 <= i < b.len() implies hex_value(hex_lower(b)[2 * i]) * 16 + hex_value(
        hex_lower(b)[2 * i + 1],
    ) == #[trigger] b[i] by {
        lemma_hex_lower_at(b, i);
    }
    assert forall|j: int| 0 <= j < hex_lower(b).len() implies 0 <= hex_value(#[trigger] hex_lower(b)[j]) < 16 by {
        lemma_hex_lower_at(b, j / 2);
        if j % 2 == 0 {
            assert(j == 2 * (j / 2));
        } else {
            assert(j == 2 * (j / 2) + 1);
        }
    }
}

fn hex_digit_exec(n: u8) -> (r: u8)
    requires
        n < 16,
    ensures
        r == hex_digit(n),
{
    if n < 10 {
        48 + n
    } else {
        87 + n
    }
}

/// Lower-case hexadecimal rendering of a byte string.
pub fn to_hex_lower(b: &[u8]) -> (r: Vec<u8>)
    ensures
        r@ == hex_lower(b@),
        r@.len() == 2 * b@.len(),
{
    let mut r: Vec<u8> = Vec::new();
    let mut i: usize = 0;
    while i < b.len()
        invariant
            i <= b@.len(),
            r@ == hex_lower(b@.subrange(0, i as int)),
        decreases b@.len() - i,
    {
        let x = b[i];
        r.push(hex_digit_exec(x / 16));
        r.push(hex_digit_exec(x % 16));
        proof {
            let pre = b@.subrange(0, i + 1);
            assert(pre.drop_last() =~= b@.subrange(0, i as int));
            assert(pre.last() == x);
        }
        i = i + 1;
    }
    assert(b@.subrange(0, b@.len() as int) =~= b@);
    proof {
        lemma_hex_lower_len(b@);
    }
    r
}

/// A string whose characters are the given ASCII bytes.
pub fn ascii_string(b: &[u8]) -> (r: String)
    requires
        forall|i: int| 0 <= i < b@.len() ==> b@[i] < 128,
    ensures
        r@ == ascii_text(b@),
{
    let mut r = String::new();
    let mut i: usize = 0;
    while i < b.len()
        invariant
            i <= b@.len(),
            forall|k: int| 0 <= k < b@.len() ==> b@[k] < 128,
            r@ =~= ascii_text(b@.subrange(0, i as int)),
        decreases b@.len() - i,
    {
        let c: char = b[i] as char;
        r.push(c);
        i = i + 1;
        assert(r@ =~= ascii_text(b@.subrange(0, i as int)));
    }
    assert(b@.subrange(0, b@.len() as int) =~= b@);
    r
}

/// Character-wise equality of two strings.
pub fn str_equal(a: &str, b: &str) -> (r: bool)
    ensures
        r == (a@ == b@),
{
    let n = a.unicode_len();
    if n != b.unicode_len() {
        return false;
    }
    let mut i: usize = 0;
    while i < n
        invariant
            n == a@.len(),
            n == b@.len(),
            i <= n,
            forall|j: int| 0 <= j < i ==> a@[j] == b@[j],
        decreases n - i,
    {
        if a.get_char(i) != b.get_char(i) {
            return false;
        }
        i = i + 1;
    }
    assert(a@ =~= b@);
    true
}


/// Left-to-right replacement of every non-overlapping occurrence of `pat`
/// in `s` by `rep`, as `str::replace` performs it for a non-empty pattern.
pub open spec fn replace_all(s: Seq<char>, pat: Seq<char>, rep: Seq<char>) -> Seq<char>
    decreases s.len(),
{
    if s.len() == 0 {
        s
    } else if 0 < pat.len() <= s.len() && s.subrange(0, pat.len() as int) == pat {
        rep + replace_all(s.subrange(pat.len() as int, s.len() as int), pat, rep)
    } else {
        seq![s[0]] + replace_all(s.subrange(1, s.len() as int), pat, rep)
    }
}

/// The characters of a string, one per element.
pub fn chars_of(s: &str) -> (r: Vec<char>)
    ensures
        r@ == s@,
{
    let n = s.unicode_len();
    let mut r: Vec<char> = Vec::new();
    let mut i: usize = 0;
    while i < n
        invariant
            n == s@.len(),
            i <= n,
            r@ =~= s@.subrange(0, i as int),
        decreases n - i,
    {
        r.push(s.get_char(i));
        i = i + 1;
        assert(r@ =~= s@.subrange(0, i as int));
    }
    assert(s@.subrange(0, n as int) =~= s@);
    r
}

/// Whether `pat` occurs in `s` at position `at`.
fn occurs_at(s: &Vec<char>, pat: &Vec<char>, at: usize) -> (r: bool)
    requires
        at <= s@.len(),
    ensures
        r == (at + pat@.len() <= s@.len() && s@.subrange(at as int, at + pat@.len()) == pat@),
{
    if pat.len() > s.len() - at {
        return false;
    }
    let sl = s.len();
    let mut k: usize = 0;
    while k < pat.len()
        invariant
            sl == s@.len(),
            at + pat@.len() <= s@.len(),
            k <= pat@.len(),
            forall|j: int| 0 <= j < k ==> s@[at + j] == pat@[j],
        decreases pat@.len() - k,
    {
        assert(at + k < s@.len());
        if s[at + k] != pat[k] {
            assert(s@.subrange(at as int, at + pat@.len())[k as int] != pat@[k as int]);
            return false;
        }
        k = k + 1;
    }
    assert(s@.subrange(at as int, at + pat@.len()) =~= pat@);
    true
}

/// `text.replace(pat, rep)` for a non-empty pattern.
pub fn replace_text(text: &str, pat: &str, rep: &str) -> (r: String)
    requires
        pat@.len() > 0,
    ensures
        r@ == replace_all(text@, pat@, rep@),
{
    let t = chars_of(text);
    let p = chars_of(pat);
    let mut r = String::new();
    let n = t.len();
    let mut i: usize = 0;
    assert(text@.subrange(0, n as int) =~= text@);
    assert(r@ + text@ =~= text@);
    while i < n
        invariant
            t@ == text@,
            p@ == pat@,
            p@.len() > 0,
            n == t@.len(),
            i <= n,
            replace_all(text@, pat@, rep@) == r@ + replace_all(
                text@.subrange(i as int, n as int),
                pat@,
                rep@,
            ),
        decreases n - i,
    {
        let ghost rest = text@.subrange(i as int, n as int);
        if occurs_at(&t, &p, i) {
            proof {
                assert(rest.subrange(0, pat@.len() as int) =~= text@.subrange(
                    i as int,
                    i + pat@.len(),
                ));
                assert(rest.subrange(pat@.len() as int, rest.len() as int) =~= text@.subrange(
                    i + pat@.len(),
                    n as int,
                ));
            }
            let ghost before = r@;
            r.append(rep);
            i = i + p.len();
            proof {
                let tail = replace_all(text@.subrange(i as int, n as int), pat@, rep@);
                assert(before + (rep@ + tail) =~= r@ + tail);
            }
        } else {
            proof {
                if 0 < pat@.len() <= rest.len() {
                    assert(rest.subrange(0, pat@.len() as int) =~= text@.subrange(
                        i as int,
                        i + pat@.len(),
                    ));
                }
                assert(rest.subrange(1, rest.len() as int) =~= text@.subrange(i + 1, n as int));
                assert(rest[0] == t@[i as int]);
            }
            let ghost before = r@;
            let c = t[i];
            r.push(c);
            i = i + 1;
            proof {
                let tail = replace_all(text@.subrange(i as int, n as int), pat@, rep@);
                assert(before + (seq![c] + tail) =~= r@ + tail);
            }
        }
    }
    assert(text@.subrange(n as int, n as int) =~= Seq::<char>::empty());
    assert(r@ + Seq::<char>::empty() =~= r@);
    r
}


/// The UTF-8 encoding of ASCII text is its bytes.
pub proof fn lemma_ascii_text_encoding(b: Seq<u8>)
    requires
        forall|i: int| 0 <= i < b.len() ==> b[i] < 128,
    ensures
        vstd::utf8::encode_utf8(ascii_text(b)) == b,
        vstd::utf8::is_ascii_chars(ascii_text(b)),
{
    let t = ascii_text(b);
    assert forall|i: int| 0 <= i < t.len() implies '\0' <= #[trigger] t[i] <= '\u{7f}' by {
        assert(t[i] == b[i] as char);
    }
    vstd::utf8::is_ascii_chars_encode_utf8(t);
    let e = vstd::utf8::encode_utf8(t);
    assert forall|i: int| 0 <= i < b.len() implies e[i] == b[i] by {
        assert(t[i] as u8 == e[i]);
        assert(t[i] == b[i] as char);
    }
    assert(e =~= b);
}


/// A new string holding the characters of `s`.
pub fn string_of(s: &str) -> (r: String)
    ensures
        r@ == s@,
{
    let mut t = String::new();
    t.append(s);
    assert(t@ =~= s@);
    t
}

} // verus!
