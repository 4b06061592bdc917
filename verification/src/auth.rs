//! Inbound authorisation: a request is authorised iff one of three
//! carriers equals the configured shared key, each compared in
//! constant time: the `x-goog-api-key` header, an `Authorization`
//! bearer header with case-insensitive scheme, or the `key` query
//! parameter.

use vstd::prelude::*;
use vstd::string::StringSliceAdditionalSpecFns;
use vstd::utf8::encode_utf8;

use subtle::ConstantTimeEq;

verus! {

/// What url's form_urlencoded parser yields for a query string: the
/// decoded key/value pairs, in order.
pub uninterp spec fn query_pairs_of(s: Seq<char>) -> Seq<(Seq<char>, Seq<char>)>;

/// Relies on url's `form_urlencoded::parse`: the decoded pairs are a
/// function of the query string alone.
#[verifier::external_body]
fn parse_query_pairs(q: &str) -> (r: Vec<(String, String)>)
    ensures
        r@.map_values(|p: (String, String)| (p.0@, p.1@)) == query_pairs_of(q@),
{
    url::form_urlencoded::parse(q.as_bytes()).into_owned().collect()
}

/// Relies on subtle's `ConstantTimeEq` for byte slices: the choice it
/// returns is equality of the slices, evaluated in constant time
/// (short-circuiting only on length).
#[verifier::external_body]
fn ct_eq_bytes(a: &[u8], b: &[u8]) -> (r: bool)
    ensures
        r == (a@ == b@),
{
    bool::from(a.ct_eq(b))
}

/// The bearer scheme, case-insensitive, followed by one space.
pub open spec fn has_bearer_scheme(a: Seq<u8>) -> bool {
    &&& a.len() >= 7
    &&& (a[0] == 0x42 || a[0] == 0x62)
    &&& (a[1] == 0x45 || a[1] == 0x65)
    &&& (a[2] == 0x41 || a[2] == 0x61)
    &&& (a[3] == 0x52 || a[3] == 0x72)
    &&& (a[4] == 0x45 || a[4] == 0x65)
    &&& (a[5] == 0x52 || a[5] == 0x72)
    &&& a[6] == 0x20
}

/// The token carried by a bearer header, if the scheme matches.
pub open spec fn bearer_token_of(a: Seq<u8>) -> Option<Seq<u8>> {
    if has_bearer_scheme(a) {
        Some(a.skip(7))
    } else {
        None
    }
}

/// The bearer header grants access iff its scheme matches and its
/// token equals the key.
pub open spec fn bearer_grants(auth: Option<Seq<u8>>, expected: Seq<u8>) -> bool {
    match auth {
        Some(a) => bearer_token_of(a) == Some(expected),
        None => false,
    }
}

/// Some decoded `key` parameter of the query string equals the key.
pub open spec fn query_string_grants(q: Seq<char>, expected: Seq<u8>) -> bool {
    exists|i: int|
        0 <= i < query_pairs_of(q).len() && (#[trigger] query_pairs_of(q)[i]).0 == "key"@
            && encode_utf8(query_pairs_of(q)[i].1) == expected
}

/// The query string grants access iff some decoded `key` parameter
/// equals the key.
pub open spec fn query_grants(query: Option<Seq<char>>, expected: Seq<u8>) -> bool {
    match query {
        Some(q) => query_string_grants(q, expected),
        None => false,
    }
}

/// The authorisation rule, over the bytes of the two headers, the
/// query string, and the configured key.
pub open spec fn spec_authorized(
    goog: Option<Seq<u8>>,
    auth: Option<Seq<u8>>,
    query: Option<Seq<char>>,
    expected: Seq<u8>,
) -> bool {
    goog == Some(expected) || bearer_grants(auth, expected) || query_grants(query, expected)
}

/// Copy the bytes of `a` from `from` onward.
fn tail_bytes(a: &[u8], from: usize) -> (r: Vec<u8>)
    requires
        from <= a@.len(),
    ensures
        r@ == a@.skip(from as int),
{
    let mut out: Vec<u8> = Vec::new();
    let mut i: usize = from;
    while i < a.len()
        invariant
            from <= i <= a@.len(),
            out@ == a@.subrange(from as int, i as int),
        decreases a@.len() - i,
    {
        out.push(a[i]);
        proof {
            assert(out@ =~= a@.subrange(from as int, i as int + 1));
        }
        i += 1;
    }
    proof {
        assert(out@ =~= a@.skip(from as int));
    }
    out
}

fn bearer_token(auth: &str) -> (r: Option<Vec<u8>>)
    ensures
        match r {
            Some(t) => bearer_token_of(auth.spec_bytes()) == Some(t@),
            None => bearer_token_of(auth.spec_bytes()) is None,
        },
{
    let a = auth.as_bytes();
    if a.len() < 7 {
        return None;
    }
    let scheme_ok = (a[0] == 0x42 || a[0] == 0x62) && (a[1] == 0x45 || a[1] == 0x65) && (a[2]
        == 0x41 || a[2] == 0x61) && (a[3] == 0x52 || a[3] == 0x72) && (a[4] == 0x45 || a[4]
        == 0x65) && (a[5] == 0x52 || a[5] == 0x72) && a[6] == 0x20;
    if scheme_ok {
        Some(tail_bytes(a, 7))
    } else {
        None
    }
}

/// Whether the request is authorised. Every comparison against the
/// configured key runs in constant time.
pub fn ensure_authorized(
    goog_key: Option<&String>,
    authorization: Option<&String>,
    query: Option<&String>,
    expected: &String,
) -> (r: bool)
    ensures
        r == spec_authorized(
            match goog_key {
                Some(g) => Some(encode_utf8(g@)),
                None => None,
            },
            match authorization {
                Some(a) => Some(encode_utf8(a@)),
                None => None,
            },
            match query {
                Some(q) => Some(q@),
                None => None,
            },
            encode_utf8(expected@),
        ),
{
    let expected_bytes = expected.as_str().as_bytes();
    if goog_key.is_some() {
        let g = goog_key.unwrap();
        if ct_eq_bytes(g.as_str().as_bytes(), expected_bytes) {
            return true;
        }
    }
    if authorization.is_some() {
        let a = authorization.unwrap();
        match bearer_token(a.as_str()) {
            Some(tok) => {
                if ct_eq_bytes(tok.as_slice(), expected_bytes) {
                    return true;
                }
            },
            None => {},
        }
    }
    if query.is_some() {
        let q = query.unwrap();
        {
            let pairs = parse_query_pairs(q.as_str());
            let key_name: String = "key".to_owned();
            let ghost qp = query_pairs_of(q@);
            let mut i: usize = 0;
            while i < pairs.len()
                invariant
                    i <= pairs@.len(),
                    key_name@ == "key"@,
                    query is Some,
                    query->0 == q,
                    qp == query_pairs_of(q@),
                    pairs@.map_values(|p: (String, String)| (p.0@, p.1@)) == qp,
                    forall|j: int|
                        0 <= j < i as int ==> !((#[trigger] qp[j]).0 == "key"@ && encode_utf8(
                            qp[j].1,
                        ) == encode_utf8(expected@)),
                    expected_bytes@ == encode_utf8(expected@),
                decreases pairs@.len() - i,
            {
                proof {
                    assert(qp[i as int] == (pairs@[i as int].0@, pairs@[i as int].1@));
                }
                let is_key = pairs[i].0 == key_name;
                if is_key {
                    if ct_eq_bytes(pairs[i].1.as_str().as_bytes(), expected_bytes) {
                        proof {
                            assert(query_pairs_of(q@)[i as int].0 == "key"@);
                            assert(encode_utf8(query_pairs_of(q@)[i as int].1) == encode_utf8(
                                expected@,
                            ));
                            assert(exists|j: int|
                                0 <= j < query_pairs_of(q@).len() && (#[trigger] query_pairs_of(
                                    q@,
                                )[j]).0 == "key"@ && encode_utf8(query_pairs_of(q@)[j].1)
                                    == encode_utf8(expected@));
                            assert(query_string_grants(q@, encode_utf8(expected@)));
                        }
                        return true;
                    }
                }
                i += 1;
            }
        }
    }
    false
}

} // verus!
