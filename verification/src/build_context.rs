//! The build context of a player's image: the Dockerfile with a fresh flag
//! in place of its placeholder, packed as the only file of a gzip-compressed
//! tar archive.

use std::io::Write;
use vstd::prelude::*;
use crate::text::{replace_all, replace_text};

verus! {

/// The error type of `std::io` operations, which the archive and
/// compression calls report.
#[verifier::external_type_specification]
#[verifier::external_body]
pub struct ExIoError(std::io::Error);

/// The placeholder that the flag replaces in the Dockerfile.
pub const FLAG_PLACEHOLDER: &'static str = "<FLAG>";
/// The name of the Dockerfile inside the build context.
pub const DOCKERFILE_NAME: &'static str = "Dockerfile";
/// The permission bits of the Dockerfile inside the build context (0o755).
pub const DOCKERFILE_MODE: u32 = 493;

/// A lower-case hexadecimal digit.
pub open spec fn is_lower_hex_char(c: char) -> bool {
    ('0' <= c && c <= '9') || ('a' <= c && c <= 'f')
}

/// The hyphenated lower-case text of a UUID: 36 characters, hyphens at
/// positions 8, 13, 18 and 23, hexadecimal digits elsewhere.
pub open spec fn hyphenated_uuid(s: Seq<char>) -> bool {
    &&& s.len() == 36
    &&& forall|i: int|
        0 <= i < 36 ==> if i == 8 || i == 13 || i == 18 || i == 23 {
            #[trigger] s[i] == '-'
        } else {
            is_lower_hex_char(s[i])
        }
}

/// Calls `uuid::Uuid::new_v4` and renders the UUID with `to_string`. The
/// UUID is random; claimed is only the shape of its text, which the
/// `Display` impl of `Uuid` writes hyphenated in lower case.
#[verifier::external_body]
fn fresh_flag() -> (flag: String)
    ensures
        hyphenated_uuid(flag@),
{
    uuid::Uuid::new_v4().to_string()
}

/// The zero bytes that pad `n` bytes of file data to a whole 512-byte block.
pub open spec fn block_padding(n: nat) -> Seq<u8> {
    Seq::new(((512 - n % 512) % 512) as nat, |i: int| 0u8)
}

/// The tar archive that holds one file, as `tar::Builder` writes it for a
/// GNU header with the given path and mode, sized to the data, checksummed.
pub uninterp spec fn tar_file_archive(path: Seq<char>, mode: u32, data: Seq<u8>) -> Seq<u8>;

/// An ASCII letter or digit.
pub open spec fn is_ascii_alnum(c: char) -> bool {
    ('0' <= c && c <= '9') || ('a' <= c && c <= 'z') || ('A' <= c && c <= 'Z')
}

/// A file name that a tar header holds as it is: one to 100 ASCII letters
/// and digits (one relative path component, no separator, no dot).
pub open spec fn simple_entry_name(path: Seq<char>) -> bool {
    &&& 1 <= path.len() <= 100
    &&& forall|i: int| 0 <= i < path.len() ==> is_ascii_alnum(#[trigger] path[i])
}

/// The last `n` octal digits of `v` as ASCII, most significant first,
/// padded with '0'.
pub open spec fn octal_digits(v: nat, n: nat) -> Seq<u8>
    decreases n,
{
    if n == 0 {
        Seq::empty()
    } else {
        octal_digits(v / 8, (n - 1) as nat).push((48 + v % 8) as u8)
    }
}

/// The fields of a tar header block that record the entry: the name field
/// (bytes 0..100) holds the path's bytes then zeros, for a simple name; the
/// mode field (100..108) holds the mode in 7 octal digits and a zero byte;
/// the size field (124..136) holds the size in 11 octal digits and a zero
/// byte, for a size below 8^11.
pub open spec fn header_records(header: Seq<u8>, path: Seq<char>, mode: u32, size: nat) -> bool {
    &&& simple_entry_name(path) ==> header.subrange(0, 100) == vstd::utf8::encode_utf8(path) + Seq::new(
        (100 - vstd::utf8::encode_utf8(path).len()) as nat,
        |i: int| 0u8,
    )
    &&& header.subrange(100, 108) == octal_digits(mode as nat, 7).push(0u8)
    &&& size < 8589934592 ==> header.subrange(124, 136) == octal_digits(size, 11).push(0u8)
}

/// `archive` is one 512-byte header block recording the entry, the data,
/// zero padding to a whole block, and the 1024 zero bytes that end an
/// archive.
pub open spec fn one_file_tar(archive: Seq<u8>, path: Seq<char>, mode: u32, data: Seq<u8>) -> bool {
    exists|header: Seq<u8>|
        #![trigger header_records(header, path, mode, data.len())]
        header.len() == 512 && header_records(header, path, mode, data.len()) && archive == header + data
            + block_padding(data.len()) + Seq::new(1024, |i: int| 0u8)
}

/// Builds a tar archive holding one file with `tar::Header::new_gnu`,
/// `set_path`, `set_size`, `set_mode`, `set_cksum`, then
/// `tar::Builder::append` and `into_inner` on an empty vector. Claimed:
/// `set_path` accepts a simple name, and writing into a vector never fails,
/// so a simple name is always packed; on success the archive is a function
/// of the path, the mode and the data, laid out as `one_file_tar` says. The
/// checksum, and the name field of other paths, are not stated.
#[verifier::external_body]
fn tar_single_file(path: &str, mode: u32, data: &[u8]) -> (r: Result<Vec<u8>, std::io::Error>)
    ensures
        simple_entry_name(path@) ==> r is Ok,
        r matches Ok(v) ==> v@ == tar_file_archive(path@, mode, data@) && one_file_tar(
            tar_file_archive(path@, mode, data@),
            path@,
            mode,
            data@,
        ),
{
    let mut header = tar::Header::new_gnu();
    header.set_path(path)?;
    header.set_size(data.len() as u64);
    header.set_mode(mode);
    header.set_cksum();
    let mut builder = tar::Builder::new(Vec::new());
    builder.append(&header, data)?;
    builder.into_inner()
}

/// The gzip stream of `data`, as `flate2::write::GzEncoder` writes it at the
/// default compression level.
pub uninterp spec fn gzip_stream(data: Seq<u8>) -> Seq<u8>;

/// Compresses `data` with a `flate2::write::GzEncoder` over an empty vector
/// at `Compression::default()`: `write_all`, then `finish`. Claimed: writing
/// into a vector never fails, so the call succeeds, and the stream is a
/// function of the data.
#[verifier::external_body]
fn gzip_compress(data: &[u8]) -> (r: Result<Vec<u8>, std::io::Error>)
    ensures
        r is Ok,
        r matches Ok(v) ==> v@ == gzip_stream(data@),
{
    let mut encoder = flate2::write::GzEncoder::new(Vec::new(), flate2::Compression::default());
    encoder.write_all(data)?;
    encoder.finish()
}

/// Why a build context could not be packed.
#[derive(Debug, Clone, Copy, PartialEq, Eq, Structural)]
pub enum ArchiveError {
    /// Building the tar archive failed.
    Tar,
    /// Compressing the archive failed.
    Gzip,
}

/// The Dockerfile with every occurrence of the placeholder replaced by
/// `flag`.
pub fn render_dockerfile(template: &str, flag: &str) -> (r: String)
    ensures
        r@ == replace_all(template@, FLAG_PLACEHOLDER@, flag@),
{
    proof {
        reveal_strlit("<FLAG>");
    }
    replace_text(template, FLAG_PLACEHOLDER, flag)
}

/// The build context of `dockerfile`: a tar archive holding it as
/// "Dockerfile" with mode 0o755, compressed with gzip.
pub open spec fn context_of(dockerfile: Seq<char>) -> Seq<u8> {
    gzip_stream(tar_file_archive(DOCKERFILE_NAME@, DOCKERFILE_MODE, vstd::utf8::encode_utf8(dockerfile)))
}

/// The entry name "Dockerfile" is a simple name.
pub proof fn lemma_dockerfile_name_is_simple()
    ensures
        simple_entry_name(DOCKERFILE_NAME@),
{
    reveal_strlit("Dockerfile");
}

/// Packs `dockerfile` into a build context; packing into memory always
/// succeeds.
pub fn pack_dockerfile(dockerfile: &str) -> (r: Result<Vec<u8>, ArchiveError>)
    ensures
        r is Ok,
        r matches Ok(v) ==> v@ == context_of(dockerfile@),
        one_file_tar(
            tar_file_archive(DOCKERFILE_NAME@, DOCKERFILE_MODE, vstd::utf8::encode_utf8(dockerfile@)),
            DOCKERFILE_NAME@,
            DOCKERFILE_MODE,
            vstd::utf8::encode_utf8(dockerfile@),
        ),
{
    proof {
        lemma_dockerfile_name_is_simple();
    }
    let archive = match tar_single_file(DOCKERFILE_NAME, DOCKERFILE_MODE, dockerfile.as_bytes()) {
        Ok(a) => a,
        Err(_) => {
            return Err(ArchiveError::Tar);
        },
    };
    match gzip_compress(archive.as_slice()) {
        Ok(c) => Ok(c),
        Err(_) => Err(ArchiveError::Gzip),
    }
}

/// The build context of a player's image from the Dockerfile's template: a
/// fresh random flag replaces every placeholder, and the result is packed.
/// The Dockerfile packed holds no placeholder, is 30 characters longer per
/// replaced placeholder (a flag has 36), and its size is recorded in the
/// archive's header.
pub fn prepare_docker_image(template: &str) -> (r: Result<Vec<u8>, ArchiveError>)
    ensures
        r is Ok,
        r matches Ok(v) ==> exists|flag: Seq<char>|
            #![trigger replace_all(template@, FLAG_PLACEHOLDER@, flag)]
            {
                let d = replace_all(template@, FLAG_PLACEHOLDER@, flag);
                &&& hyphenated_uuid(flag)
                &&& v@ == context_of(d)
                &&& no_occurrence(d, FLAG_PLACEHOLDER@)
                &&& d.len() == template@.len() + 30 * match_count(template@, FLAG_PLACEHOLDER@)
                &&& one_file_tar(
                    tar_file_archive(DOCKERFILE_NAME@, DOCKERFILE_MODE, vstd::utf8::encode_utf8(d)),
                    DOCKERFILE_NAME@,
                    DOCKERFILE_MODE,
                    vstd::utf8::encode_utf8(d),
                )
            },
{
    let flag = fresh_flag();
    let dockerfile = render_dockerfile(template, flag.as_str());
    proof {
        rendered_dockerfile_has_no_placeholder(template@, flag@);
    }
    pack_dockerfile(dockerfile.as_str())
}

/// `pat` does not occur anywhere in `s`.
pub open spec fn no_occurrence(s: Seq<char>, pat: Seq<char>) -> bool {
    forall|i: int| 0 <= i && i + pat.len() <= s.len() ==> #[trigger] s.subrange(i, i + pat.len()) != pat
}

/// The number of occurrences of `pat` that the left-to-right replacement
/// replaces.
pub open spec fn match_count(s: Seq<char>, pat: Seq<char>) -> nat
    decreases s.len(),
{
    if s.len() == 0 {
        0
    } else if 0 < pat.len() <= s.len() && s.subrange(0, pat.len() as int) == pat {
        1 + match_count(s.subrange(pat.len() as int, s.len() as int), pat)
    } else {
        match_count(s.subrange(1, s.len() as int), pat)
    }
}

/// No character of `a` occurs in `b`.
pub open spec fn disjoint_chars(a: Seq<char>, b: Seq<char>) -> bool {
    forall|i: int, j: int| 0 <= i < a.len() && 0 <= j < b.len() ==> #[trigger] a[i] != #[trigger] b[j]
}

/// Each replacement changes the length by the difference of the lengths.
pub proof fn lemma_replace_len(s: Seq<char>, pat: Seq<char>, rep: Seq<char>)
    ensures
        replace_all(s, pat, rep).len() == s.len() + match_count(s, pat) * (rep.len() - pat.len()),
    decreases s.len(),
{
    if s.len() > 0 {
        let d: int = rep.len() - pat.len();
        if 0 < pat.len() <= s.len() && s.subrange(0, pat.len() as int) == pat {
            let rest = s.subrange(pat.len() as int, s.len() as int);
            lemma_replace_len(rest, pat, rep);
            let c: int = match_count(rest, pat) as int;
            assert(replace_all(s, pat, rep) == rep + replace_all(rest, pat, rep));
            assert(match_count(s, pat) == 1 + match_count(rest, pat));
            assert(rest.len() == s.len() - pat.len());
            assert(replace_all(rest, pat, rep).len() == rest.len() + c * d);
            assert((1 + c) * d == c * d + d) by (nonlinear_arith);
            assert(replace_all(s, pat, rep).len() == s.len() + (1 + c) * d);
        } else {
            let rest = s.subrange(1, s.len() as int);
            lemma_replace_len(rest, pat, rep);
            assert(replace_all(s, pat, rep) == seq![s[0]] + replace_all(rest, pat, rep));
            assert(match_count(s, pat) == match_count(rest, pat));
            assert(replace_all(s, pat, rep).len() == s.len() + match_count(s, pat) * d);
        }
    } else {
        assert(match_count(s, pat) == 0);
        assert(replace_all(s, pat, rep).len() == s.len());
    }
}

/// When a result of the replacement starts with `w`, whose characters do
/// not occur in `rep`, the text replaced started with `w` too.
proof fn lemma_replaced_prefix(u: Seq<char>, pat: Seq<char>, rep: Seq<char>, w: Seq<char>)
    requires
        rep.len() > 0,
        disjoint_chars(w, rep),
        w.len() <= replace_all(u, pat, rep).len(),
        replace_all(u, pat, rep).subrange(0, w.len() as int) == w,
    ensures
        w.len() <= u.len(),
        u.subrange(0, w.len() as int) == w,
    decreases u.len(),
{
    if w.len() == 0 {
        assert(u.subrange(0, 0) =~= w);
    } else if u.len() == 0 {
    } else if 0 < pat.len() <= u.len() && u.subrange(0, pat.len() as int) == pat {
        let r = replace_all(u, pat, rep);
        assert(r[0] == rep[0]);
        assert(r.subrange(0, w.len() as int)[0] == w[0]);
    } else {
        let u1 = u.subrange(1, u.len() as int);
        let r1 = replace_all(u1, pat, rep);
        let r = replace_all(u, pat, rep);
        assert(r == seq![u[0]] + r1);
        let w1 = w.subrange(1, w.len() as int);
        assert(r.subrange(0, w.len() as int)[0] == w[0]);
        assert(r1.subrange(0, w1.len() as int) =~= r.subrange(1, w.len() as int));
        assert(r.subrange(1, w.len() as int) =~= w1);
        assert(disjoint_chars(w1, rep)) by {
            assert forall|i: int, j: int| 0 <= i < w1.len() && 0 <= j < rep.len() implies #[trigger] w1[i]
                != #[trigger] rep[j] by {
                assert(w1[i] == w[i + 1]);
            }
        }
        lemma_replaced_prefix(u1, pat, rep, w1);
        assert(u.subrange(0, w.len() as int) =~= seq![u[0]] + u1.subrange(0, w1.len() as int));
        assert(w =~= seq![w[0]] + w1);
    }
}

/// Replacing with text that shares no character with the pattern leaves no
/// occurrence of the pattern.
pub proof fn lemma_replace_leaves_no_occurrence(s: Seq<char>, pat: Seq<char>, rep: Seq<char>)
    requires
        pat.len() > 0,
        rep.len() > 0,
        disjoint_chars(pat, rep),
    ensures
        no_occurrence(replace_all(s, pat, rep), pat),
    decreases s.len(),
{
    let r = replace_all(s, pat, rep);
    if s.len() == 0 {
    } else if 0 < pat.len() <= s.len() && s.subrange(0, pat.len() as int) == pat {
        let rest = s.subrange(pat.len() as int, s.len() as int);
        let rr = replace_all(rest, pat, rep);
        lemma_replace_leaves_no_occurrence(rest, pat, rep);
        assert(r == rep + rr);
        assert forall|i: int| 0 <= i && i + pat.len() <= r.len() implies #[trigger] r.subrange(
            i,
            i + pat.len(),
        ) != pat by {
            if i < rep.len() {
                assert(r.subrange(i, i + pat.len())[0] == rep[i]);
                assert(pat[0] != rep[i]);
            } else {
                assert(r.subrange(i, i + pat.len()) =~= rr.subrange(
                    i - rep.len(),
                    i - rep.len() + pat.len(),
                ));
            }
        }
    } else {
        let s1 = s.subrange(1, s.len() as int);
        let r1 = replace_all(s1, pat, rep);
        lemma_replace_leaves_no_occurrence(s1, pat, rep);
        assert(r == seq![s[0]] + r1);
        assert forall|i: int| 0 <= i && i + pat.len() <= r.len() implies #[trigger] r.subrange(
            i,
            i + pat.len(),
        ) != pat by {
            if i >= 1 {
                assert(r.subrange(i, i + pat.len()) =~= r1.subrange(i - 1, i - 1 + pat.len()));
            } else if r.subrange(i, i + pat.len()) == pat {
                let w1 = pat.subrange(1, pat.len() as int);
                assert(r.subrange(0, pat.len() as int)[0] == s[0]);
                assert(s[0] == pat[0]);
                assert(r1.subrange(0, w1.len() as int) =~= r.subrange(1, pat.len() as int));
                assert(r.subrange(1, pat.len() as int) =~= w1);
                assert(disjoint_chars(w1, rep)) by {
                    assert forall|a: int, b: int| 0 <= a < w1.len() && 0 <= b < rep.len()
                        implies #[trigger] w1[a] != #[trigger] rep[b] by {
                        assert(w1[a] == pat[a + 1]);
                    }
                }
                lemma_replaced_prefix(s1, pat, rep, w1);
                assert(s.subrange(0, pat.len() as int) =~= seq![s[0]] + s1.subrange(
                    0,
                    w1.len() as int,
                ));
                assert(pat =~= seq![pat[0]] + w1);
            }
        }
    }
}

/// With a flag in UUID form the rendered Dockerfile holds no placeholder,
/// each replaced placeholder adds 30 characters, and a template without a
/// placeholder is left as it is.
pub proof fn rendered_dockerfile_has_no_placeholder(template: Seq<char>, flag: Seq<char>)
    requires
        hyphenated_uuid(flag),
    ensures
        no_occurrence(replace_all(template, FLAG_PLACEHOLDER@, flag), FLAG_PLACEHOLDER@),
        replace_all(template, FLAG_PLACEHOLDER@, flag).len() == template.len() + 30 * match_count(
            template,
            FLAG_PLACEHOLDER@,
        ),
        no_occurrence(template, FLAG_PLACEHOLDER@) ==> replace_all(template, FLAG_PLACEHOLDER@, flag)
            == template,
{
    reveal_strlit("<FLAG>");
    let p = FLAG_PLACEHOLDER@;
    assert(disjoint_chars(p, flag)) by {
        assert forall|i: int, j: int| 0 <= i < p.len() && 0 <= j < flag.len() implies #[trigger] p[i]
            != #[trigger] flag[j] by {
            if j == 8 || j == 13 || j == 18 || j == 23 {
                assert(flag[j] == '-');
            } else {
                assert(is_lower_hex_char(flag[j]));
            }
        }
    }
    lemma_replace_leaves_no_occurrence(template, p, flag);
    lemma_replace_len(template, p, flag);
    assert(p.len() == 6 && flag.len() == 36);
    if no_occurrence(template, p) {
        replace_without_occurrence(template, p, flag);
    }
}

/// A template without the placeholder is left as it is.
pub proof fn replace_without_occurrence(s: Seq<char>, pat: Seq<char>, rep: Seq<char>)
    requires
        pat.len() > 0,
        forall|i: int| 0 <= i && i + pat.len() <= s.len() ==> #[trigger] s.subrange(i, i + pat.len()) != pat,
    ensures
        replace_all(s, pat, rep) == s,
    decreases s.len(),
{
    if s.len() > 0 {
        let rest = s.subrange(1, s.len() as int);
        if pat.len() <= s.len() {
            assert(s.subrange(0int, 0int + pat.len()) != pat);
            assert(s.subrange(0int, 0int + pat.len()) == s.subrange(0, pat.len() as int));
        }
        assert forall|i: int| 0 <= i && i + pat.len() <= rest.len() implies #[trigger] rest.subrange(
            i,
            i + pat.len(),
        ) != pat by {
            assert(rest.subrange(i, i + pat.len()) =~= s.subrange(i + 1, i + 1 + pat.len()));
        }
        replace_without_occurrence(rest, pat, rep);
        assert(seq![s[0]] + rest =~= s);
    }
}

} // verus!
