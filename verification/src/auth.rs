//! Optional bearer-token authentication for browser (server) mode.
//!
//! Off by default: the server binds to loopback, and the common case is a
//! single-user machine. Passing `--token <TOKEN>` turns the check on, and every
//! `/api/*` route then requires it, either as `Authorization: Bearer <token>`
//! or as `?token=<token>`.

use vstd::prelude::*;
use vstd::utf8::*;

use crate::text::{chars_of, has_prefix_at, string_of};

verus! {

/// The token the user supplied via `--token`.
///
/// User-chosen rather than generated, which keeps it stable across restarts.
pub struct AuthToken {
    value: String,
}

impl View for AuthToken {
    type V = Seq<char>;

    closed spec fn view(&self) -> Seq<char> {
        self.value@
    }
}

impl Clone for AuthToken {
    /// A copy of the token with the same value.
    fn clone(&self) -> (r: Self)
        ensures
            r@ == self@,
    {
        AuthToken { value: self.value.clone() }
    }
}

/// Query parameters that may carry the token (`?token=...`), for clients such
/// as `EventSource` that cannot set headers.
pub struct TokenQuery {
    pub token: Option<String>,
}

/// A byte an HTTP header value may hold and still be read as text: visible
/// ASCII or a horizontal tab.
pub open spec fn is_visible_ascii(b: u8) -> bool {
    (32 <= b && b < 127) || b == 9
}

/// The text of a header value, when every byte is visible ASCII.
pub open spec fn header_text_spec(bytes: Seq<u8>) -> Option<Seq<char>> {
    if forall|i: int| 0 <= i < bytes.len() ==> is_visible_ascii(#[trigger] bytes[i]) {
        Some(Seq::new(bytes.len(), |i: int| bytes[i] as char))
    } else {
        None
    }
}

/// `Bearer ` (with its trailing space), the scheme prefix of the header.
pub open spec fn bearer_prefix() -> Seq<char> {
    seq!['B', 'e', 'a', 'r', 'e', 'r', ' ']
}

/// The credential of an `Authorization` header value: what follows `Bearer `.
pub open spec fn bearer_value_spec(header: Seq<char>) -> Option<Seq<char>> {
    if header.len() >= bearer_prefix().len() && header.take(bearer_prefix().len() as int)
        == bearer_prefix() {
        Some(header.skip(bearer_prefix().len() as int))
    } else {
        None
    }
}

/// The token a request presents: the bearer credential of its `Authorization`
/// header when there is a readable one, else its `token` query parameter.
pub open spec fn presented_token_spec(
    authorization: Option<Seq<u8>>,
    query_token: Option<Seq<char>>,
) -> Option<Seq<char>> {
    let from_header = match authorization {
        Some(bytes) => match header_text_spec(bytes) {
            Some(text) => bearer_value_spec(text),
            None => None,
        },
        None => None,
    };
    match from_header {
        Some(t) => Some(t),
        None => query_token,
    }
}

/// Equal UTF-8 encodings come only from equal character sequences.
proof fn lemma_encode_utf8_injective(a: Seq<char>, b: Seq<char>)
    requires
        encode_utf8(a) == encode_utf8(b),
    ensures
        a == b,
{
    encode_utf8_decode_utf8(a);
    encode_utf8_decode_utf8(b);
}

/// One step of the constant-time comparison: the accumulator stays zero
/// exactly while the bytes compared so far agree.
proof fn lemma_accumulate_difference(diff: u8, a: u8, b: u8)
    ensures
        ((diff | (a ^ b)) == 0) <==> (diff == 0 && a == b),
{
    assert(((diff | (a ^ b)) == 0) <==> (diff == 0 && a == b)) by (bit_vector);
}

impl AuthToken {
    pub fn new(raw: &str) -> (r: Self)
        ensures
            r@ == raw@,
    {
        AuthToken { value: raw.to_owned() }
    }

    pub fn as_str(&self) -> (r: &str)
        ensures
            r@ == self@,
    {
        self.value.as_str()
    }

    /// Constant-time comparison, so a caller cannot recover the token
    /// byte-by-byte by measuring how long a rejection takes.
    pub fn matches(&self, candidate: &str) -> (r: bool)
        ensures
            r == (self@ == candidate@),
    {
        let expected = self.value.as_str().as_bytes();
        let actual = candidate.as_bytes();
        if expected.len() != actual.len() {
            return false;
        }
        let mut diff: u8 = 0;
        let mut i: usize = 0;
        while i < expected.len()
            invariant
                expected@ == encode_utf8(self@),
                actual@ == encode_utf8(candidate@),
                expected@.len() == actual@.len(),
                i <= expected@.len(),
                (diff == 0) <==> (forall|j: int| 0 <= j < i ==> expected@[j] == actual@[j]),
            decreases expected@.len() - i,
        {
            let a = expected[i];
            let b = actual[i];
            proof {
                lemma_accumulate_difference(diff, a, b);
            }
            diff = diff | (a ^ b);
            i = i + 1;
        }
        proof {
            if diff == 0 {
                assert(expected@ =~= actual@);
                lemma_encode_utf8_injective(self@, candidate@);
            }
        }
        diff == 0
    }
}

impl TokenQuery {
    pub fn new(token: Option<String>) -> (r: Self)
        ensures
            r.token == token,
    {
        TokenQuery { token }
    }
}

/// The text of a header value, as `HeaderValue::to_str` yields it: present
/// only when every byte is visible ASCII.
pub fn header_text(bytes: &[u8]) -> (r: Option<Vec<char>>)
    ensures
        match r {
            Some(v) => header_text_spec(bytes@) == Some(v@),
            None => header_text_spec(bytes@) is None,
        },
{
    let mut out: Vec<char> = Vec::new();
    let mut i: usize = 0;
    while i < bytes.len()
        invariant
            i <= bytes@.len(),
            out@.len() == i,
            forall|j: int| 0 <= j < i ==> is_visible_ascii(#[trigger] bytes@[j]),
            forall|j: int| 0 <= j < i ==> out@[j] == bytes@[j] as char,
        decreases bytes@.len() - i,
    {
        let b = bytes[i];
        if !((32 <= b && b < 127) || b == 9) {
            assert(!is_visible_ascii(bytes@[i as int]));
            return None;
        }
        out.push(b as char);
        i = i + 1;
    }
    assert(out@ =~= Seq::new(bytes@.len(), |k: int| bytes@[k] as char));
    Some(out)
}

/// What follows `Bearer ` in an `Authorization` header's text, if it starts so.
pub fn bearer_value(header: &Vec<char>) -> (r: Option<String>)
    ensures
        match r {
            Some(s) => bearer_value_spec(header@) == Some(s@),
            None => bearer_value_spec(header@) is None,
        },
{
    let prefix: Vec<char> = vec!['B', 'e', 'a', 'r', 'e', 'r', ' '];
    assert(prefix@ =~= bearer_prefix());
    if has_prefix_at(header, 0, &prefix) {
        assert(header@.subrange(0, 7) =~= header@.take(7));
        let rest = string_of(header, 7, header.len());
        assert(rest@ =~= header@.skip(7));
        Some(rest)
    } else {
        assert(header@.len() >= 7 ==> header@.subrange(0, 7) =~= header@.take(7));
        None
    }
}

/// The token a request presents: the `Bearer` credential of its
/// `Authorization` header (raw bytes) when readable, else `?token=`.
pub fn presented_token(authorization: Option<&[u8]>, query: &TokenQuery) -> (r: Option<String>)
    ensures
        match r {
            Some(s) => presented_token_spec(
                match authorization {
                    Some(b) => Some(b@),
                    None => None,
                },
                match query.token {
                    Some(t) => Some(t@),
                    None => None,
                },
            ) == Some(s@),
            None => presented_token_spec(
                match authorization {
                    Some(b) => Some(b@),
                    None => None,
                },
                match query.token {
                    Some(t) => Some(t@),
                    None => None,
                },
            ) is None,
        },
{
    let from_header = match authorization {
        Some(bytes) => match header_text(bytes) {
            Some(text) => bearer_value(&text),
            None => None,
        },
        None => None,
    };
    match from_header {
        Some(t) => Some(t),
        None => match &query.token {
            Some(t) => Some(t.clone()),
            None => None,
        },
    }
}

/// Whether a request may pass: it must present a token equal to the one
/// configured.
pub fn is_authorized(token: &AuthToken, authorization: Option<&[u8]>, query: &TokenQuery) -> (r:
    bool)
    ensures
        r == (presented_token_spec(
            match authorization {
                Some(b) => Some(b@),
                None => None,
            },
            match query.token {
                Some(t) => Some(t@),
                None => None,
            },
        ) == Some(token@)),
{
    match presented_token(authorization, query) {
        Some(value) => token.matches(value.as_str()),
        None => false,
    }
}

} // verus!

verus! {

/// The status a refused `/api/*` request gets: `401 Unauthorized`.
pub const UNAUTHORIZED_STATUS: u16 = 401;

/// The JSON body a refused `/api/*` request gets.
pub const UNAUTHORIZED_BODY: &'static str = "{\"error\":\"missing or invalid token\"}";

/// Whether an `/api/*` request goes on to its route.
#[derive(Debug, Clone, Copy, PartialEq, Eq)]
pub enum Admission {
    Pass,
    /// Answer at once with this status and JSON body.
    Refuse { status: u16, body: &'static str },
}

/// The check in front of every `/api/*` route. With no token configured every
/// request passes; with one, a request passes exactly when the token it
/// presents (the `Bearer` credential of a readable `Authorization` header,
/// else `?token=`) equals it, and any other is refused with `401` and
/// `{"error":"missing or invalid token"}`.
pub fn admission(required: &Option<AuthToken>, authorization: Option<&[u8]>, query: &TokenQuery) -> (r:
    Admission)
    ensures
        required is None ==> r is Pass,
        required matches Some(token) ==> ((r is Pass) == (presented_token_spec(
            match authorization {
                Some(b) => Some(b@),
                None => None,
            },
            match query.token {
                Some(t) => Some(t@),
                None => None,
            },
        ) == Some(token@))),
        r matches Admission::Refuse { status, body } ==> status == UNAUTHORIZED_STATUS && body
            == UNAUTHORIZED_BODY,
{
    match required {
        None => Admission::Pass,
        Some(token) => {
            if is_authorized(token, authorization, query) {
                Admission::Pass
            } else {
                Admission::Refuse { status: UNAUTHORIZED_STATUS, body: UNAUTHORIZED_BODY }
            }
        },
    }
}

} // verus!
