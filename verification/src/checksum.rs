//! Integrity checks: SHA-256, SHA-512, SHA-1 and MD5; `"none"` skips the check.

use md5::Md5;
use sha1::Sha1;
use sha2::{Digest, Sha256, Sha512};
use vstd::prelude::*;

use crate::error::{EnvHiveError, EnvHiveErrorKind};
use crate::text::{
    append_str, chars_of, chars_of_string, eq, find, find_first, lemma_find_first_is, occurs_at, is_ascii_hex, is_ascii_upper, is_ws,
    lemma_lead_len, lemma_trail_len, lower, slice_of, to_lower, to_string, trim, trim_str, trim_v, upper,
    ws_pred,
};

verus! {

#[derive(Debug, Clone, Copy, PartialEq, Eq, Structural)]
pub enum HashAlgo {
    Sha256,
    Sha512,
    Sha1,
    Md5,
}

/// The algorithm a (trimmed, lower-cased) name stands for.
pub open spec fn algo_named(name: Seq<char>) -> Option<HashAlgo> {
    if name == "sha256"@ {
        Some(HashAlgo::Sha256)
    } else if name == "sha512"@ {
        Some(HashAlgo::Sha512)
    } else if name == "sha1"@ {
        Some(HashAlgo::Sha1)
    } else if name == "md5"@ {
        Some(HashAlgo::Md5)
    } else {
        None
    }
}

/// The name under which an algorithm is written.
pub open spec fn algo_label(a: HashAlgo) -> Seq<char> {
    match a {
        HashAlgo::Sha256 => "sha256"@,
        HashAlgo::Sha512 => "sha512"@,
        HashAlgo::Sha1 => "sha1"@,
        HashAlgo::Md5 => "md5"@,
    }
}

impl HashAlgo {
    /// The algorithm named by `s`, ignoring surrounding whitespace and ASCII case.
    pub fn from_str(s: &str) -> (r: Option<HashAlgo>)
        ensures
            r == algo_named(lower(trim(s@))),
    {
        let t = trim_str(s);
        let l = to_lower(&t);
        if eq(&l, &chars_of("sha256")) {
            Some(HashAlgo::Sha256)
        } else if eq(&l, &chars_of("sha512")) {
            Some(HashAlgo::Sha512)
        } else if eq(&l, &chars_of("sha1")) {
            Some(HashAlgo::Sha1)
        } else if eq(&l, &chars_of("md5")) {
            Some(HashAlgo::Md5)
        } else {
            None
        }
    }
}

/// Lower-case letters and digits only.
spec fn plain_label(s: Seq<char>) -> bool {
    forall|i: int| 0 <= i < s.len() ==> ('a' <= #[trigger] s[i] && s[i] <= 'z') || ('0' <= s[i] && s[i] <= '9')
}

proof fn lemma_label_plain(a: HashAlgo)
    ensures
        plain_label(algo_label(a)),
        algo_label(a).len() >= 3,
{
    reveal_strlit("sha256");
    reveal_strlit("sha512");
    reveal_strlit("sha1");
    reveal_strlit("md5");
}

/// Upper-casing a plain label and lower-casing it again gives it back.
proof fn lemma_case_round_trip(s: Seq<char>)
    requires
        plain_label(s),
    ensures
        lower(upper(s)) == s,
        forall|i: int| 0 <= i < s.len() ==> !is_ws(#[trigger] upper(s)[i]),
{
    assert forall|i: int| 0 <= i < s.len() implies lower(upper(s))[i] == s[i] && !is_ws(#[trigger] upper(s)[i]) by {
        let c = s[i];
        if 'a' <= c && c <= 'z' {
            let u = ((c as u32) - 32) as char;
            assert(u as u32 == (c as u32) - 32);
            assert(is_ascii_upper(u));
            assert(((u as u32) + 32) as char == c);
        }
    }
    assert(lower(upper(s)) =~= s);
}

/// Each algorithm's name reads back as that algorithm, also in upper case
/// and with blanks around it.
pub proof fn lemma_algo_name_round_trip(a: HashAlgo)
    ensures
        algo_named(lower(trim(algo_label(a)))) == Some(a),
        algo_named(lower(trim(" "@ + upper(algo_label(a)) + " "@))) == Some(a),
{
    let l = algo_label(a);
    lemma_label_plain(a);
    reveal_strlit(" ");
    assert forall|i: int| 0 <= i < l.len() implies !is_ws(#[trigger] l[i]) by {}
    lemma_lead_len(l, ws_pred(), 0);
    assert(l.skip(0) =~= l);
    lemma_trail_len(l, ws_pred(), 0);
    assert(l.take(l.len() as int) =~= l);
    assert(lower(l) =~= l) by {
        assert forall|i: int| 0 <= i < l.len() implies lower(l)[i] == l[i] by {
            assert(!is_ascii_upper(l[i]));
        }
    }
    let u = upper(l);
    lemma_case_round_trip(l);
    let t = " "@ + u + " "@;
    assert(is_ws(' '));
    assert(t[0] == ' ' && t[1] == u[0]);
    lemma_lead_len(t, ws_pred(), 1);
    let t2 = t.skip(1);
    assert(t2 =~= u + " "@);
    assert(t2[t2.len() - 2] == u[u.len() - 1]);
    lemma_trail_len(t2, ws_pred(), 1);
    assert(t2.take(t2.len() - 1) =~= u);
    reveal_strlit("sha256");
    reveal_strlit("sha512");
    reveal_strlit("sha1");
    reveal_strlit("md5");
}

pub fn algo_name(algo: HashAlgo) -> (r: &'static str)
    ensures
        r@ == algo_label(algo),
{
    match algo {
        HashAlgo::Sha256 => "sha256",
        HashAlgo::Sha512 => "sha512",
        HashAlgo::Sha1 => "sha1",
        HashAlgo::Md5 => "md5",
    }
}

/// An expected digest: its algorithm and the digest in lower-case hex.
#[derive(Debug, Clone)]
pub struct Checksum {
    pub algo: HashAlgo,
    pub digest: String,
}

pub open spec fn all_hex(s: Seq<char>) -> bool {
    forall|i: int| 0 <= i < s.len() ==> is_ascii_hex(#[trigger] s[i])
}

/// The algorithm named before the first `:` of a trimmed checksum text, if any.
pub open spec fn prefix_algo(s: Seq<char>) -> Option<HashAlgo> {
    match find_first(s, seq![':']) {
        Some(i) => algo_named(lower(trim(s.take(i)))),
        None => None,
    }
}

/// A checksum text: `"<algo>:<hex>"`, `"none"` or empty (no check), or 64
/// hex digits alone (SHA-256); anything else gives no check.
pub open spec fn checksum_of(spec: Seq<char>) -> Option<(HashAlgo, Seq<char>)> {
    let s = trim(spec);
    if s.len() == 0 || lower(s) == "none"@ {
        None
    } else if prefix_algo(s) is Some {
        Some(
            (
                prefix_algo(s)->0,
                lower(trim(s.skip(find_first(s, seq![':'])->0 + 1))),
            ),
        )
    } else if s.len() == 64 && all_hex(s) {
        Some((HashAlgo::Sha256, lower(s)))
    } else {
        None
    }
}

/// Reads a checksum text.
pub fn parse(spec: &str) -> (r: Option<Checksum>)
    ensures
        match r {
            Some(c) => checksum_of(spec@) == Some((c.algo, c.digest@)),
            None => checksum_of(spec@) is None,
        },
{
    let s = trim_str(spec);
    if s.len() == 0 || eq(&to_lower(&s), &chars_of("none")) {
        return None;
    }
    assert(s@.len() != 0 && lower(s@) != "none"@);
    let colon = vec![':'];
    assert(colon@ =~= seq![':']);
    match find(&s, &colon) {
        Some(i) => {
            let head = slice_of(&s, 0, i);
            assert(head@ =~= s@.take(i as int));
            let h = to_string(&head);
            match HashAlgo::from_str(h.as_str()) {
                Some(algo) => {
                    let tail = slice_of(&s, i + 1, s.len());
                    assert(tail@ =~= s@.skip(i + 1));
                    let d = to_lower(&trim_v(&tail));
                    return Some(Checksum { algo, digest: to_string(&d) });
                },
                None => {},
            }
        },
        None => {},
    }
    assert(prefix_algo(s@) is None);
    if s.len() == 64 {
        let mut k: usize = 0;
        while k < s.len()
            invariant
                k <= s.len(),
                s@ == trim(spec@),
                s.len() == 64,
                s@.len() != 0 && lower(s@) != "none"@,
                prefix_algo(s@) is None,
                forall|j: int| 0 <= j < k ==> is_ascii_hex(#[trigger] s@[j]),
            decreases s.len() - k,
        {
            let c = s[k];
            if !(('0' <= c && c <= '9') || ('a' <= c && c <= 'f') || ('A' <= c && c <= 'F')) {
                assert(!is_ascii_hex(s@[k as int]));
                return None;
            }
            k = k + 1;
        }
        return Some(Checksum { algo: HashAlgo::Sha256, digest: to_string(&to_lower(&s)) });
    }
    None
}

/// A trimmed checksum text `<name>:<hex>` whose name `HashAlgo::from_str`
/// recognises reads as that very algorithm, with the hex part trimmed and
/// lower-cased as the expected digest.
pub proof fn lemma_checksum_takes_named_algo(name: Seq<char>, hex: Seq<char>)
    requires
        forall|i: int| 0 <= i < name.len() ==> name[i] != ':',
        trim(name + seq![':'] + hex) == name + seq![':'] + hex,
        algo_named(lower(trim(name))) is Some,
    ensures
        checksum_of(name + seq![':'] + hex) == Some((algo_named(lower(trim(name)))->0, lower(trim(hex)))),
{
    let s = name + seq![':'] + hex;
    let n = name.len() as int;
    let colon = seq![':'];
    assert(s.subrange(n, n + 1) =~= colon);
    assert(occurs_at(s, colon, n));
    assert forall|j: int| 0 <= j < n implies !occurs_at(s, colon, j) by {
        if occurs_at(s, colon, j) {
            assert(s.subrange(j, j + 1)[0] == s[j]);
            assert(s[j] == name[j]);
        }
    }
    lemma_find_first_is(s, colon, n);
    assert(s.take(n) =~= name);
    assert(s.skip(n + 1) =~= hex);
    reveal_strlit("none");
    assert(lower(s)[n] == ':');
    assert(lower(s) != "none"@) by {
        if lower(s) == "none"@ {
            assert("none"@ =~= seq!['n', 'o', 'n', 'e']);
            assert(0 <= n < 4);
            assert(lower(s)[n] == "none"@[n]);
        }
    }
}

/// An empty text or `none` (any case) asks for no check; 64 hex digits
/// alone are a SHA-256 digest.
pub proof fn lemma_checksum_plain(s: Seq<char>)
    ensures
        trim(s).len() == 0 ==> checksum_of(s) is None,
        lower(trim(s)) == "none"@ ==> checksum_of(s) is None,
        trim(s) == s && s.len() == 64 && (forall|i: int| 0 <= i < s.len() ==> is_ascii_hex(#[trigger] s[i]))
            ==> checksum_of(s) == Some((HashAlgo::Sha256, lower(s))),
{
    if trim(s) == s && s.len() == 64 && (forall|i: int| 0 <= i < s.len() ==> is_ascii_hex(#[trigger] s[i])) {
        let colon = seq![':'];
        crate::text::lemma_find_first_props(s, colon);
        if let Some(i) = find_first(s, colon) {
            assert(s.subrange(i, i + 1)[0] == s[i]);
            assert(is_ascii_hex(s[i]));
        }
        reveal_strlit("none");
        assert(lower(s).len() == 64);
    }
}

// ---------------------------------------------------------------------------
// Digests
// ---------------------------------------------------------------------------

/// The SHA-256 digest of `data` (FIPS 180-4).
pub uninterp spec fn sha256_digest(data: Seq<u8>) -> Seq<u8>;

/// The SHA-512 digest of `data` (FIPS 180-4).
pub uninterp spec fn sha512_digest(data: Seq<u8>) -> Seq<u8>;

/// The SHA-1 digest of `data` (FIPS 180-4).
pub uninterp spec fn sha1_digest(data: Seq<u8>) -> Seq<u8>;

/// The MD5 digest of `data` (RFC 1321).
pub uninterp spec fn md5_digest(data: Seq<u8>) -> Seq<u8>;

/// `sha2::Sha256::digest`: the digest of the bytes, which the crate's
/// output type fixes at 32 bytes. Its value is named, not stated.
#[verifier::external_body]
fn sha256_of(data: &[u8]) -> (r: Vec<u8>)
    ensures
        r@ == sha256_digest(data@),
        r@.len() == 32,
{
    Sha256::digest(data).to_vec()
}

/// `sha2::Sha512::digest`: the 64-byte digest of the bytes, named.
#[verifier::external_body]
fn sha512_of(data: &[u8]) -> (r: Vec<u8>)
    ensures
        r@ == sha512_digest(data@),
        r@.len() == 64,
{
    Sha512::digest(data).to_vec()
}

/// `sha1::Sha1::digest`: the 20-byte digest of the bytes, named.
#[verifier::external_body]
fn sha1_of(data: &[u8]) -> (r: Vec<u8>)
    ensures
        r@ == sha1_digest(data@),
        r@.len() == 20,
{
    Sha1::digest(data).to_vec()
}

/// `md5::Md5::digest` (crate md-5): the 16-byte digest of the bytes, named.
#[verifier::external_body]
fn md5_of(data: &[u8]) -> (r: Vec<u8>)
    ensures
        r@ == md5_digest(data@),
        r@.len() == 16,
{
    Md5::digest(data).to_vec()
}

/// A hex digit in lower case.
pub open spec fn hex_digit(n: u8) -> char {
    if n < 10 {
        (('0' as u32) + n as u32) as char
    } else {
        (('a' as u32) + n as u32 - 10) as char
    }
}

/// Lower-case hex, two digits per byte, high digit first.
pub open spec fn hex_lower(b: Seq<u8>) -> Seq<char>
    decreases b.len(),
{
    if b.len() == 0 {
        Seq::empty()
    } else {
        hex_lower(b.drop_last()) + seq![hex_digit(b.last() / 16), hex_digit(b.last() % 16)]
    }
}

/// `hex::encode`: each byte as two lower-case hex digits, in order, as the
/// crate documents it.
#[verifier::external_body]
fn hex_encode(data: &[u8]) -> (r: String)
    ensures
        r@ == hex_lower(data@),
{
    hex::encode(data)
}

/// The digest of `algo` over `data`.
pub open spec fn digest_of(algo: HashAlgo, data: Seq<u8>) -> Seq<u8> {
    match algo {
        HashAlgo::Sha256 => sha256_digest(data),
        HashAlgo::Sha512 => sha512_digest(data),
        HashAlgo::Sha1 => sha1_digest(data),
        HashAlgo::Md5 => md5_digest(data),
    }
}

/// Each algorithm hashes with its own digest: `sha256:` texts are checked
/// with SHA-256, `sha512:` with SHA-512, `sha1:` with SHA-1, `md5:` with MD5.
pub proof fn lemma_digest_by_name(data: Seq<u8>)
    ensures
        forall|a: HashAlgo| #[trigger] algo_named(algo_label(a)) == Some(a),
        digest_of(algo_named("sha256"@)->0, data) == sha256_digest(data),
        digest_of(algo_named("sha512"@)->0, data) == sha512_digest(data),
        digest_of(algo_named("sha1"@)->0, data) == sha1_digest(data),
        digest_of(algo_named("md5"@)->0, data) == md5_digest(data),
{
    reveal_strlit("sha256");
    reveal_strlit("sha512");
    reveal_strlit("sha1");
    reveal_strlit("md5");
    assert("sha512"@[4] != "sha256"@[4]);
    assert("sha512"@ != "sha256"@);
    assert("md5"@.len() != "sha256"@.len());
    assert("md5"@.len() != "sha512"@.len());
    assert("md5"@.len() != "sha1"@.len());
    assert forall|a: HashAlgo| #[trigger] algo_named(algo_label(a)) == Some(a) by {
        lemma_algo_name_round_trip(a);
    }
}

/// The hash of a file's contents, in lower-case hex.
pub fn file_hash(data: &[u8], algo: HashAlgo) -> (r: String)
    ensures
        r@ == hex_lower(digest_of(algo, data@)),
{
    let d = match algo {
        HashAlgo::Sha256 => sha256_of(data),
        HashAlgo::Sha512 => sha512_of(data),
        HashAlgo::Sha1 => sha1_of(data),
        HashAlgo::Md5 => md5_of(data),
    };
    hex_encode(d.as_slice())
}

/// `str::eq_ignore_ascii_case`.
pub open spec fn eq_ignore_case(a: Seq<char>, b: Seq<char>) -> bool {
    lower(a) == lower(b)
}

/// The message of a failed check.
pub open spec fn mismatch_message(
    name: Seq<char>,
    algo: HashAlgo,
    expected: Seq<char>,
    actual: Seq<char>,
) -> Seq<char> {
    name + " 校验失败：期望 "@ + algo_label(algo) + ":"@ + expected + ", 实际 "@ + algo_label(algo)
        + ":"@ + actual
}

/// Compares the actual hex digest with the expected checksum.
pub fn check_digest(name: &str, checksum: &Checksum, actual: &str) -> (r: Result<(), EnvHiveError>)
    ensures
        eq_ignore_case(actual@, checksum.digest@) ==> r is Ok,
        !eq_ignore_case(actual@, checksum.digest@) ==> (r matches Err(e) && e.kind
            == EnvHiveErrorKind::Checksum && e.message@ == mismatch_message(
            name@,
            checksum.algo,
            checksum.digest@,
            actual@,
        )),
{
    let a = chars_of(actual);
    let d = chars_of_string(&checksum.digest);
    if eq(&to_lower(&a), &to_lower(&d)) {
        Ok(())
    } else {
        let label = algo_name(checksum.algo);
        let mut m: Vec<char> = Vec::new();
        append_str(&mut m, name);
        append_str(&mut m, " 校验失败：期望 ");
        append_str(&mut m, label);
        append_str(&mut m, ":");
        append_str(&mut m, checksum.digest.as_str());
        append_str(&mut m, ", 实际 ");
        append_str(&mut m, label);
        append_str(&mut m, ":");
        append_str(&mut m, actual);
        Err(EnvHiveError::new(EnvHiveErrorKind::Checksum, to_string(&m)))
    }
}

/// Checks a file's contents against a checksum text; `"none"`, an empty or
/// an unreadable text skips the check. `name` names the file in the message.
pub fn verify_file(name: &str, data: &[u8], spec: &str) -> (r: Result<(), EnvHiveError>)
    ensures
        match checksum_of(spec@) {
            None => r is Ok,
            Some((algo, expected)) => {
                let actual = hex_lower(digest_of(algo, data@));
                &&& eq_ignore_case(actual, expected) ==> r is Ok
                &&& !eq_ignore_case(actual, expected) ==> (r matches Err(e) && e.kind
                    == EnvHiveErrorKind::Checksum && e.message@ == mismatch_message(
                    name@,
                    algo,
                    expected,
                    actual,
                ))
            },
        },
{
    match parse(spec) {
        None => Ok(()),
        Some(c) => {
            let actual = file_hash(data, c.algo);
            check_digest(name, &c, actual.as_str())
        },
    }
}

} // verus!
