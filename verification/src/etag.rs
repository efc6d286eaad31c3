//! Content fingerprints for conditional-fetch negotiation.
//!
//! A tag is the fast 64-bit content hash, printed in decimal between
//! double quotes.  It is opaque to clients: a request presenting the
//! tag it was last given for unchanged bytes is answered "not
//! modified".  Collision resistance is not required; the threat model
//! is cache efficiency, not integrity.

use vstd::prelude::*;

verus! {

/// What the 64-bit content hash returns for the given bytes.
pub uninterp spec fn xxh3_of(bytes: Seq<u8>) -> u64;

/// Relies on `xxhash_rust::xxh3::xxh3_64`: a 64-bit hash computed from
/// the input bytes alone (default secret, seed 0), so the same bytes
/// give the same value in every process and on every machine.
#[verifier::external_body]
fn xxh3(content: &[u8]) -> (r: u64)
    ensures
        r == xxh3_of(content@),
{
    xxhash_rust::xxh3::xxh3_64(content)
}

pub open spec fn digit_char(d: int) -> char {
    if d == 0 {
        '0'
    } else if d == 1 {
        '1'
    } else if d == 2 {
        '2'
    } else if d == 3 {
        '3'
    } else if d == 4 {
        '4'
    } else if d == 5 {
        '5'
    } else if d == 6 {
        '6'
    } else if d == 7 {
        '7'
    } else if d == 8 {
        '8'
    } else {
        '9'
    }
}

/// The decimal digits of `n`, most significant first.
pub open spec fn dec_digits(n: int) -> Seq<char>
    decreases n,
{
    if n < 10 {
        seq![digit_char(n)]
    } else {
        dec_digits(n / 10).push(digit_char(n % 10))
    }
}

/// Appends the decimal rendering of `n`.
fn push_decimal(n: u64, out: &mut String)
    ensures
        final(out)@ == old(out)@ + dec_digits(n as int),
    decreases n,
{
    let ghost mut mid = old(out)@;
    if n >= 10 {
        push_decimal(n / 10, out);
        proof {
            mid = out@;
        }
    }
    let d = n % 10;
    proof {
        reveal_strlit("0");
        reveal_strlit("1");
        reveal_strlit("2");
        reveal_strlit("3");
        reveal_strlit("4");
        reveal_strlit("5");
        reveal_strlit("6");
        reveal_strlit("7");
        reveal_strlit("8");
        reveal_strlit("9");
    }
    if d == 0 {
        out.append("0");
    } else if d == 1 {
        out.append("1");
    } else if d == 2 {
        out.append("2");
    } else if d == 3 {
        out.append("3");
    } else if d == 4 {
        out.append("4");
    } else if d == 5 {
        out.append("5");
    } else if d == 6 {
        out.append("6");
    } else if d == 7 {
        out.append("7");
    } else if d == 8 {
        out.append("8");
    } else {
        out.append("9");
    }
    proof {
        assert(out@ =~= mid + seq![digit_char(d as int)]);
        if n >= 10 {
            assert(old(out)@ + dec_digits(n as int) =~= (old(out)@ + dec_digits(n as int / 10))
                + seq![digit_char(n as int % 10)]);
        }
    }
}

/// The fingerprint of some content: its hash, quoted.
pub open spec fn etag_of(bytes: Seq<u8>) -> Seq<char> {
    seq!['"'] + dec_digits(xxh3_of(bytes) as int) + seq!['"']
}

/// Whether a client-presented tag matches some content.
pub open spec fn tag_accepts(tag: Seq<char>, bytes: Seq<u8>) -> bool {
    tag == etag_of(bytes)
}

/// Computes the fingerprint served (and compared) for some content.
pub fn etag_hash(content: &[u8]) -> (r: String)
    ensures
        r@ == etag_of(content@),
{
    let h = xxh3(content);
    let mut s = "\"".to_owned();
    proof {
        reveal_strlit("\"");
        assert("\""@ =~= seq!['"']);
    }
    push_decimal(h, &mut s);
    s.append("\"");
    proof {
        assert(s@ =~= etag_of(content@));
    }
    s
}

/// Decides a conditional fetch: true exactly when the presented tag is
/// the one the content currently carries, in which case the caller
/// answers "not modified".
pub fn etag_matches(content: &[u8], client_tag: &str) -> (r: bool)
    ensures
        r == tag_accepts(client_tag@, content@),
{
    let tag = etag_hash(content);
    let client = client_tag.to_owned();
    <String as PartialEq>::eq(&client, &tag)
}

/// Equal byte sequences always yield equal tags.
pub proof fn lemma_fingerprint_deterministic(a: Seq<u8>, b: Seq<u8>)
    requires
        a == b,
    ensures
        etag_of(a) == etag_of(b),
{
}

/// A tag issued for some bytes is accepted for those bytes while they
/// are unchanged: the conditional fetch is answered "not modified".
pub proof fn lemma_issued_tag_matches(bytes: Seq<u8>)
    ensures
        tag_accepts(etag_of(bytes), bytes),
{
}

} // verus!
