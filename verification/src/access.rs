//! Access checks at the controller's doors: the local API token and the model gateway's API key.
//! Secrets are compared by their SHA-256 digests in constant time.

use crate::crypto::{sha256, sha256_of};
use crate::text::{text_eq, utf8};
use subtle::ConstantTimeEq;
use vstd::prelude::*;
use vstd::string::StrSliceExecFns;

verus! {

broadcast use vstd::string::group_string_axioms;

/// Whether two byte slices are equal, by `subtle`'s `ConstantTimeEq::ct_eq` on slices read as a
/// `bool`. Its documentation states the result is 1 exactly when the slices are equal (and 0 for
/// slices of different lengths); the contract says so. That the comparison takes constant time
/// is not stated.
#[verifier::external_body]
fn constant_time_eq(a: &[u8], b: &[u8]) -> (r: bool)
    ensures
        r == (a@ == b@),
{
    bool::from(a.ct_eq(b))
}

/// A supplied secret matches the expected one when their SHA-256 digests are equal.
pub open spec fn secret_matches(expected: Seq<char>, supplied: Seq<char>) -> bool {
    sha256_of(utf8(expected)) == sha256_of(utf8(supplied))
}

/// Compare a supplied secret with the expected one by their digests, in constant time.
pub fn secrets_match(expected: &str, supplied: &str) -> (r: bool)
    ensures
        r == secret_matches(expected@, supplied@),
{
    let e = sha256(expected.as_bytes());
    let s = sha256(supplied.as_bytes());
    constant_time_eq(e.as_slice(), s.as_slice())
}

/// The local API accepts a request whose `x-rampage-token` header (empty when absent) matches the
/// controller's token.
pub fn authorize_local_token(expected: &str, supplied: Option<&str>) -> (r: Result<(), &'static str>)
    ensures
        r is Ok == secret_matches(expected@, match supplied {
            Some(s) => s@,
            None => Seq::empty(),
        }),
        r matches Err(m) ==> m@ == "valid local Rampage token required"@,
{
    proof {
        reveal_strlit("");
    }
    let given = match supplied {
        Some(s) => s,
        None => "",
    };
    if secrets_match(expected, given) {
        Ok(())
    } else {
        Err("valid local Rampage token required")
    }
}

/// A character folded to ASCII lower case.
pub open spec fn ascii_lower(c: char) -> char {
    if 'A' <= c <= 'Z' { ((c as u32) + 32) as char } else { c }
}

/// Whether an authorization scheme is `bearer` in any ASCII case.
pub open spec fn is_bearer_scheme(s: Seq<char>) -> bool {
    s.len() == 6 && forall|i: int| 0 <= i < 6 ==> ascii_lower(#[trigger] s[i]) == "bearer"@[i]
}

/// The position of the first space in a text, if any.
pub open spec fn first_space(s: Seq<char>) -> Option<int> {
    if exists|i: int| 0 <= i < s.len() && s[i] == ' ' {
        Some(choose|i: int| 0 <= i < s.len() && s[i] == ' ' && forall|j: int| 0 <= j < i ==> s[j] != ' ')
    } else {
        None
    }
}

/// The token of a `Bearer` authorization header: what follows the first space when the scheme
/// before it is `bearer` in any case; otherwise nothing.
pub open spec fn bearer_token(authorization: Option<Seq<char>>) -> Seq<char> {
    match authorization {
        None => Seq::empty(),
        Some(a) => match first_space(a) {
            None => Seq::empty(),
            Some(i) => if is_bearer_scheme(a.take(i)) { a.skip(i + 1) } else { Seq::empty() },
        },
    }
}

/// The key a gateway request supplies: its non-empty `x-api-key` header, else its bearer token.
pub open spec fn supplied_key(authorization: Option<Seq<char>>, api_key: Option<Seq<char>>) -> Seq<char> {
    match api_key {
        Some(k) => if k.len() > 0 { k } else { bearer_token(authorization) },
        None => bearer_token(authorization),
    }
}

fn lower_ascii(c: char) -> (r: char)
    ensures
        r == ascii_lower(c),
{
    if 'A' <= c && c <= 'Z' {
        ((c as u8) + 32) as char
    } else {
        c
    }
}

fn bearer_of(authorization: &str) -> (r: &str)
    ensures
        r@ == bearer_token(Some(authorization@)),
{
    proof {
        reveal_strlit("");
    }
    let n = authorization.unicode_len();
    let mut i: usize = 0;
    while i < n
        invariant
            n == authorization@.len(),
            i <= n,
            forall|j: int| 0 <= j < i ==> authorization@[j] != ' ',
        ensures
            n == authorization@.len(),
            i <= n,
            forall|j: int| 0 <= j < i ==> authorization@[j] != ' ',
            i < n ==> authorization@[i as int] == ' ',
        decreases n - i,
    {
        if authorization.get_char(i) == ' ' {
            break;
        }
        i = i + 1;
    }
    if i == n {
        assert(!exists|k: int| 0 <= k < authorization@.len() && authorization@[k] == ' ');
        return "";
    }
    proof {
        reveal_strlit("bearer");
        let k = choose|k: int| 0 <= k < authorization@.len() && authorization@[k] == ' ' && forall|j: int| 0 <= j < k ==> authorization@[j] != ' ';
        assert(authorization@[i as int] == ' ');
        if k > i {
            assert(authorization@[i as int] != ' ');
        }
    }
    let mut scheme_ok = i == 6;
    let mut j: usize = 0;
    while scheme_ok && j < 6
        invariant
            n == authorization@.len(),
            i < n,
            scheme_ok ==> i == 6,
            j <= 6,
            scheme_ok ==> forall|q: int| 0 <= q < j ==> ascii_lower(#[trigger] authorization@[q]) == "bearer"@[q],
            !scheme_ok ==> !is_bearer_scheme(authorization@.take(i as int)),
        decreases 6 - j + (if scheme_ok { 1int } else { 0int }),
    {
        proof {
            reveal_strlit("bearer");
        }
        let want = "bearer".get_char(j);
        if lower_ascii(authorization.get_char(j)) != want {
            assert(authorization@.take(i as int)[j as int] == authorization@[j as int]);
            scheme_ok = false;
        } else {
            j = j + 1;
        }
    }
    if !scheme_ok {
        return "";
    }
    assert(is_bearer_scheme(authorization@.take(i as int))) by {
        reveal_strlit("bearer");
        assert forall|q: int| 0 <= q < 6 implies ascii_lower(#[trigger] authorization@.take(i as int)[q]) == "bearer"@[q] by {
            assert(authorization@.take(i as int)[q] == authorization@[q]);
        }
    }
    let rest = authorization.substring_char(i + 1, n);
    assert(rest@ =~= authorization@.skip(i + 1));
    rest
}

/// The key a gateway request supplies, from its `authorization` and `x-api-key` headers.
pub fn gateway_key<'a>(authorization: Option<&'a str>, api_key: Option<&'a str>) -> (r: &'a str)
    ensures
        r@ == supplied_key(
            match authorization {
                Some(a) => Some(a@),
                None => None,
            },
            match api_key {
                Some(k) => Some(k@),
                None => None,
            },
        ),
{
    match api_key {
        Some(k) => {
            if k.unicode_len() > 0 {
                return k;
            }
        },
        None => {},
    }
    proof {
        reveal_strlit("");
    }
    match authorization {
        Some(a) => bearer_of(a),
        None => "",
    }
}

/// A refused gateway request is answered in the Anthropic format on `/v1/messages` and in the
/// OpenAI format elsewhere.
pub open spec fn gateway_refusal_spec(path: Seq<char>) -> (bool, Seq<char>) {
    if path == "/v1/messages"@ {
        (true, "valid Rampage API key required"@)
    } else {
        (false, "valid Rampage bearer token required"@)
    }
}

/// Admit a model gateway request whose supplied key matches the gateway's; a refusal says whether
/// to answer in the Anthropic format, and with which message (status 401, kind
/// `authentication_error`).
pub fn authorize_gateway_key(
    expected: &str,
    authorization: Option<&str>,
    api_key: Option<&str>,
    path: &str,
) -> (r: Result<(), (bool, &'static str)>)
    ensures
        r is Ok == secret_matches(
            expected@,
            supplied_key(
                match authorization {
                    Some(a) => Some(a@),
                    None => None,
                },
                match api_key {
                    Some(k) => Some(k@),
                    None => None,
                },
            ),
        ),
        r matches Err((anthropic, m)) ==> (anthropic, m@) == gateway_refusal_spec(path@),
{
    let supplied = gateway_key(authorization, api_key);
    if secrets_match(expected, supplied) {
        return Ok(());
    }
    if text_eq(path, "/v1/messages") {
        Err((true, "valid Rampage API key required"))
    } else {
        Err((false, "valid Rampage bearer token required"))
    }
}

} // verus!
