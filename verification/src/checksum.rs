//! Content hashes of downloaded payloads.

use crate::errors::{Error, ErrorView};
use itertools::Itertools;
use vstd::prelude::*;
use vstd::string::*;

verus! {

/// The SHA-256 digest of a byte string.
pub uninterp spec fn sha256_digest(data: Seq<u8>) -> Seq<u8>;

/// `parts` written one after another with `sep` between neighbours.
pub open spec fn interleaved(parts: Seq<Seq<char>>, sep: Seq<char>) -> Seq<char>
    decreases parts.len(),
{
    if parts.len() == 0 {
        Seq::empty()
    } else if parts.len() == 1 {
        parts[0]
    } else {
        interleaved(parts.drop_last(), sep) + sep + parts.last()
    }
}

/// The lower-case hexadecimal digit of a value below sixteen.
pub open spec fn hex_digit(n: int) -> char {
    if n < 10 {
        ('0' as int + n) as char
    } else {
        ('a' as int + n - 10) as char
    }
}

/// The two hexadecimal digits of a byte, high nibble first.
pub open spec fn hex_pair(b: u8) -> Seq<char> {
    seq![hex_digit(b as int / 16), hex_digit(b as int % 16)]
}

/// The lower-case hexadecimal rendering of a byte string: two digits a byte.
pub open spec fn hex(bytes: Seq<u8>) -> Seq<char>
    decreases bytes.len(),
{
    if bytes.len() == 0 {
        Seq::empty()
    } else {
        hex(bytes.drop_last()) + hex_pair(bytes.last())
    }
}

/// The renderings of the single bytes.
pub open spec fn hex_pairs(bytes: Seq<u8>) -> Seq<Seq<char>> {
    Seq::new(bytes.len(), |i: int| hex_pair(bytes[i]))
}

/// The pairs of digits, written one after another, are the rendering of the
/// whole.
pub proof fn hex_pairs_interleaved(bytes: Seq<u8>)
    ensures
        interleaved(hex_pairs(bytes), Seq::empty()) == hex(bytes),
    decreases bytes.len(),
{
    if bytes.len() == 1 {
        assert(hex(bytes.drop_last()) =~= Seq::<char>::empty());
        assert(hex(bytes) =~= hex_pair(bytes[0]));
    } else if bytes.len() > 1 {
        hex_pairs_interleaved(bytes.drop_last());
        assert(hex_pairs(bytes).drop_last() =~= hex_pairs(bytes.drop_last()));
        assert(interleaved(hex_pairs(bytes), Seq::empty()) =~= hex(bytes));
    }
}

/// Calls `openssl::sha::sha256`, which hashes the whole of `data` in one go.
/// The digest is given the name [`sha256_digest`]; nothing else is claimed of
/// it.
#[verifier::external_body]
fn sha256(data: &[u8]) -> (digest: [u8; 32])
    ensures
        digest@ == sha256_digest(data@),
{
    openssl::sha::sha256(data)
}

/// Calls `itertools::Itertools::join` on the strings of `parts`, in order: the
/// result holds every string, with `sep` between each two neighbours and
/// nothing before the first or after the last.
#[verifier::external_body]
fn join(parts: &Vec<String>, sep: &str) -> (joined: String)
    ensures
        joined@ == interleaved(parts.deep_view(), sep@),
{
    parts.iter().join(sep)
}

/// The hexadecimal digit of `n`, as a string.
fn hex_digit_str(n: u8) -> (digit: &'static str)
    requires
        n < 16,
    ensures
        digit@ == seq![hex_digit(n as int)],
{
    proof {
        reveal_strlit("0");
        reveal_strlit("1");
        reveal_strlit("2");
        reveal_strlit("3");
        reveal_strlit("4");
        reveal_strlit("5");
        reveal_strlit("6");
        reveal_strlit("7");
        reveal_strlit("8");
        reveal_strlit("9");
        reveal_strlit("a");
        reveal_strlit("b");
        reveal_strlit("c");
        reveal_strlit("d");
        reveal_strlit("e");
        reveal_strlit("f");
    }
    let digit = match n {
        0 => "0",
        1 => "1",
        2 => "2",
        3 => "3",
        4 => "4",
        5 => "5",
        6 => "6",
        7 => "7",
        8 => "8",
        9 => "9",
        10 => "a",
        11 => "b",
        12 => "c",
        13 => "d",
        14 => "e",
        _ => "f",
    };
    assert(digit@ =~= seq![hex_digit(n as int)]);
    digit
}

/// The lower-case hexadecimal rendering of `bytes`.
pub fn to_hex(bytes: &[u8]) -> (text: String)
    ensures
        text@ == hex(bytes@),
{
    let mut pairs: Vec<String> = Vec::new();
    let mut i: usize = 0;
    while i < bytes.len()
        invariant
            i <= bytes.len(),
            pairs.len() == i,
            forall|j: int| 0 <= j < i ==> pairs[j]@ == hex_pair(bytes@[j]),
        decreases bytes.len() - i,
    {
        let b = bytes[i];
        let mut pair = hex_digit_str(b / 16).to_owned();
        pair.append(hex_digit_str(b % 16));
        assert(pair@ =~= hex_pair(b));
        pairs.push(pair);
        i += 1;
    }
    proof {
        reveal_strlit("");
        assert(""@ =~= Seq::<char>::empty());
        assert(pairs.deep_view() =~= hex_pairs(bytes@));
        hex_pairs_interleaved(bytes@);
    }
    join(&pairs, "")
}

/// The SHA-256 digest of `payload`.
pub fn payload_digest(payload: &[u8]) -> (digest: Vec<u8>)
    ensures
        digest@ == sha256_digest(payload@),
{
    let hash = sha256(payload);
    let mut digest: Vec<u8> = Vec::new();
    let mut i: usize = 0;
    while i < 32
        invariant
            i <= 32,
            digest@ == hash@.take(i as int),
        decreases 32 - i,
    {
        digest.push(hash[i]);
        assert(hash@.take(i + 1) =~= hash@.take(i as int).push(hash@[i as int]));
        i += 1;
    }
    assert(hash@.take(32) =~= hash@);
    digest
}

/// What the check of a payload's digest against the hash that the manifest
/// declares comes to: the two agree when the declared hash is the lower-case
/// hexadecimal rendering of the digest. Where they do not, the failure names
/// the url, the declared hash and the rendering of the digest.
pub open spec fn digest_checked(url: Seq<char>, expected: Seq<char>, digest: Seq<u8>) -> Result<
    (),
    ErrorView,
> {
    if hex(digest) == expected {
        Ok(())
    } else {
        Err(ErrorView::ChecksumFailed { url, expected, calculated: hex(digest) })
    }
}

/// The value of what a check returns.
pub open spec fn checked(res: Result<(), Error>) -> Result<(), ErrorView> {
    match res {
        Ok(()) => Ok(()),
        Err(e) => Err(e@),
    }
}

/// Checks the digest of the payload fetched from `url` against the hash
/// `expected` that the manifest declares for it: see [`digest_checked`].
pub fn check_digest(url: &str, expected: &str, digest: &[u8]) -> (res: Result<(), Error>)
    ensures
        checked(res) == digest_checked(url@, expected@, digest@),
{
    let calculated = to_hex(digest);
    let declared = expected.to_owned();
    if declared == calculated {
        Ok(())
    } else {
        Err(Error::ChecksumFailed { url: url.to_owned(), expected: declared, calculated })
    }
}

/// Checks the payload fetched from `url` against the hash `expected` that the
/// manifest declares for it: the check of [`check_digest`] on the payload's
/// SHA-256 digest.
pub fn verify_checksum(url: &str, expected: &str, payload: &[u8]) -> (res: Result<(), Error>)
    ensures
        checked(res) == digest_checked(url@, expected@, sha256_digest(payload@)),
{
    let digest = sha256(payload);
    check_digest(url, expected, digest.as_slice())
}

} // verus!
