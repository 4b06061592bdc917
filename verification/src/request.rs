//! Preprocessing of an inbound generate call: the target model is
//! the last path segment up to any `:rpc` suffix, and the call
//! streams iff the path names the streaming RPC.

use vstd::prelude::*;
use vstd::string::StrSliceExecFns;

use crate::text::{after_last, lemma_after_last_at, lemma_up_to_first_at, up_to_first};

verus! {

/// `sub` occurs contiguously in `s`.
pub open spec fn contains_seq(s: Seq<char>, sub: Seq<char>) -> bool {
    exists|i: int|
        0 <= i && i + sub.len() <= s.len() && #[trigger] s.subrange(i, i + sub.len()) == sub
}

/// The model named by a request path: the last path segment, up to a
/// `:` if one follows.
pub open spec fn spec_model_of(path: Seq<char>) -> Seq<char> {
    up_to_first(after_last(path, '/'), ':')
}

fn contains_str(s: &str, sub: &str) -> (r: bool)
    ensures
        r == contains_seq(s@, sub@),
{
    let n = s.unicode_len();
    let m = sub.unicode_len();
    if m > n {
        return false;
    }
    if m == 0 {
        proof {
            assert(s@.subrange(0, 0 + sub@.len() as int) =~= sub@);
        }
        return true;
    }
    let mut i: usize = 0;
    while i <= n - m
        invariant
            1 <= m <= n,
            n == s@.len(),
            m == sub@.len(),
            i <= n - m + 1,
            forall|k: int| 0 <= k < i as int ==> #[trigger] s@.subrange(k, k + m as int) != sub@,
        decreases n - m - i + 1,
    {
        let mut j: usize = 0;
        let mut mismatch = false;
        while j < m
            invariant
                j <= m,
                i + m <= n,
                n == s@.len(),
                m == sub@.len(),
                !mismatch ==> forall|k: int| 0 <= k < j as int ==> s@[i as int + k] == sub@[k],
                mismatch ==> s@.subrange(i as int, i as int + m as int) != sub@,
            decreases m - j,
        {
            if !mismatch {
                if s.get_char(i + j) != sub.get_char(j) {
                    proof {
                        let sr = s@.subrange(i as int, i as int + m as int);
                        assert(sr[j as int] != sub@[j as int]);
                    }
                    mismatch = true;
                }
            }
            j += 1;
        }
        if !mismatch {
            proof {
                assert(s@.subrange(i as int, i as int + m as int) =~= sub@);
            }
            return true;
        }
        i += 1;
    }
    proof {
        if contains_seq(s@, sub@) {
            let w = choose|w: int|
                0 <= w && w + sub@.len() <= s@.len() && #[trigger] s@.subrange(w, w + sub@.len())
                    == sub@;
            assert(s@.subrange(w, w + m as int) != sub@);
        }
    }
    false
}

/// Split the request path into the target model and the streaming
/// flag: only the streaming RPC name turns streaming on.
pub fn parse_model_path(path: &str) -> (r: (String, bool))
    ensures
        r.0@ == spec_model_of(path@),
        r.1 == contains_seq(path@, "streamGenerateContent"@),
{
    let n = path.unicode_len();
    let mut start: usize = 0;
    let mut i: usize = 0;
    while i < n
        invariant
            i <= n,
            n == path@.len(),
            start <= i,
            start == 0 || path@[start as int - 1] == '/',
            forall|k: int| start as int <= k < i as int ==> path@[k] != '/',
        decreases n - i,
    {
        if path.get_char(i) == '/' {
            start = i + 1;
        }
        i += 1;
    }
    proof {
        lemma_after_last_at(path@, '/', start as int);
    }
    let ghost seg = path@.skip(start as int);
    let mut end: usize = start;
    while end < n && path.get_char(end) != ':'
        invariant
            start <= end <= n,
            n == path@.len(),
            forall|k: int| start as int <= k < end as int ==> path@[k] != ':',
        decreases n - end,
    {
        end += 1;
    }
    proof {
        assert(forall|k: int|
            0 <= k < end as int - start as int ==> seg[k] == path@[k + start as int]
                && #[trigger] seg[k] != ':');
        if (end as int) < n as int {
            assert(seg[end as int - start as int] == path@[end as int]);
        }
        lemma_up_to_first_at(seg, ':', end as int - start as int);
        assert(seg.take(end as int - start as int) =~= path@.subrange(start as int, end as int));
    }
    let model = path.substring_char(start, end).to_owned();
    let stream = contains_str(path, "streamGenerateContent");
    (model, stream)
}

/// What a handler needs to know about one inbound generate call.
pub struct GeminiContext {
    pub model: String,
    pub stream: bool,
    pub path: String,
}

/// Preprocess one request path into its handler context.
pub fn preprocess_path(path: &str) -> (r: GeminiContext)
    ensures
        r.model@ == spec_model_of(path@),
        r.stream == contains_seq(path@, "streamGenerateContent"@),
        r.path@ == path@,
{
    let (model, stream) = parse_model_path(path);
    GeminiContext { model, stream, path: path.to_owned() }
}

} // verus!
