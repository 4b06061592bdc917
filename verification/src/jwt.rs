//! Lifting the user-visible email label out of an OAuth `id_token`.
//! Only the middle JWT segment is decoded — URL-safe base64 without
//! padding — and its `email` field read; no signature is verified,
//! since the token arrived over the successful token exchange itself.

use vstd::prelude::*;
use vstd::string::StringSliceAdditionalSpecFns;

use base64::Engine;

use crate::text::{after_first, lemma_after_first_at, lemma_after_first_none,
    lemma_up_to_first_at, up_to_first};

verus! {

/// The byte value of `.`, the JWT segment separator.
pub const DOT: u8 = 0x2e;

/// What base64's URL-safe, no-padding engine yields for an input:
/// the decoded bytes, or `None` when the input is not valid base64.
pub uninterp spec fn b64url_decoded(s: Seq<u8>) -> Option<Seq<u8>>;

/// What parsing the bytes as JSON and reading the top-level `email`
/// string field yields.
pub uninterp spec fn email_claim_of(bytes: Seq<u8>) -> Option<Seq<char>>;

/// Relies on base64's `URL_SAFE_NO_PAD` engine: the decode is a
/// function of the input bytes alone.
#[verifier::external_body]
fn b64url_decode(s: &[u8]) -> (r: Option<Vec<u8>>)
    ensures
        match r {
            Some(v) => b64url_decoded(s@) == Some(v@),
            None => b64url_decoded(s@) is None,
        },
{
    match base64::engine::general_purpose::URL_SAFE_NO_PAD.decode(s) {
        Ok(v) => Some(v),
        Err(_) => None,
    }
}

/// Relies on serde_json: parses the bytes as a JSON document and
/// reads the `email` string field of the top-level object; the
/// result is a function of the bytes alone.
#[verifier::external_body]
fn json_email_field(bytes: &[u8]) -> (r: Option<String>)
    ensures
        match r {
            Some(s) => email_claim_of(bytes@) == Some(s@),
            None => email_claim_of(bytes@) is None,
        },
{
    serde_json::from_slice::<serde_json::Value>(bytes).ok().and_then(
        |v| v.get("email").and_then(|e| e.as_str()).map(|s| s.to_string()),
    )
}

/// The middle segment of a JWT: between the first `.` and the next
/// (or the end); `None` when the token has no `.` at all.
pub open spec fn jwt_payload_segment(s: Seq<u8>) -> Option<Seq<u8>> {
    match after_first(s, DOT) {
        Some(rest) => Some(up_to_first(rest, DOT)),
        None => None,
    }
}

/// What the whole lift yields: decode the middle segment, parse it,
/// read the `email` field. `None` at any missing step.
pub open spec fn spec_email_of_id_token(s: Seq<u8>) -> Option<Seq<char>> {
    match jwt_payload_segment(s) {
        Some(seg) => match b64url_decoded(seg) {
            Some(bytes) => email_claim_of(bytes),
            None => None,
        },
        None => None,
    }
}

/// Copy `a[from..to]`.
fn copy_range(a: &[u8], from: usize, to: usize) -> (r: Vec<u8>)
    requires
        from <= to <= a@.len(),
    ensures
        r@ == a@.subrange(from as int, to as int),
{
    let mut out: Vec<u8> = Vec::new();
    let mut i: usize = from;
    while i < to
        invariant
            from <= i <= to <= a@.len(),
            out@ == a@.subrange(from as int, i as int),
        decreases to - i,
    {
        out.push(a[i]);
        proof {
            assert(out@ =~= a@.subrange(from as int, i as int + 1));
        }
        i += 1;
    }
    out
}

/// The email carried in an `id_token`, when every step of the lift
/// succeeds.
pub fn email_from_id_token(id_token: &str) -> (r: Option<String>)
    ensures
        match r {
            Some(e) => spec_email_of_id_token(id_token.spec_bytes()) == Some(e@),
            None => spec_email_of_id_token(id_token.spec_bytes()) is None,
        },
{
    let a = id_token.as_bytes();
    let n = a.len();
    let mut i: usize = 0;
    while i < n && a[i] != DOT
        invariant
            n == a@.len(),
            i <= n,
            forall|k: int| 0 <= k < i as int ==> a@[k] != DOT,
        decreases n - i,
    {
        i += 1;
    }
    if i == n {
        proof {
            lemma_after_first_none(a@, DOT);
        }
        return None;
    }
    proof {
        lemma_after_first_at(a@, DOT, i as int);
    }
    let ghost rest = a@.skip(i as int + 1);
    let mut j: usize = i + 1;
    while j < n && a[j] != DOT
        invariant
            n == a@.len(),
            i < n,
            i + 1 <= j <= n,
            forall|k: int| i as int + 1 <= k < j as int ==> a@[k] != DOT,
        decreases n - j,
    {
        j += 1;
    }
    proof {
        assert(forall|k: int|
            0 <= k < (j - i - 1) as int ==> rest[k] == a@[k + i + 1] && #[trigger] rest[k] != DOT);
        if (j as int) < n as int {
            assert(rest[(j - i - 1) as int] == a@[j as int]);
        }
        lemma_up_to_first_at(rest, DOT, j as int - i as int - 1);
        assert(rest.take(j as int - i as int - 1) =~= a@.subrange(i as int + 1, j as int));
    }
    let seg = copy_range(a, i + 1, j);
    match b64url_decode(seg.as_slice()) {
        Some(decoded) => json_email_field(decoded.as_slice()),
        None => None,
    }
}

} // verus!
