//! Request headers.

use axum::http::HeaderMap;
use axum::http::HeaderValue;
use crate::text;
use vstd::prelude::*;

verus! {

/// `http::HeaderMap`, opaque. What it holds is [`header_values`].
#[verifier::external_type_specification]
#[verifier::external_body]
#[verifier::reject_recursive_types(T)]
pub struct ExHeaderMap<T>(axum::http::HeaderMap<T>);

/// `http::HeaderValue`, opaque.
#[verifier::external_type_specification]
#[verifier::external_body]
pub struct ExHeaderValue(axum::http::HeaderValue);

/// What a map holds: under a name in lower case, the first value of the header
/// that a lookup of that name finds.
pub uninterp spec fn header_values(headers: HeaderMap<HeaderValue>) -> Map<Seq<char>, Seq<u8>>;

/// An upper-case ASCII letter in lower case; any other character as it is.
pub open spec fn lower(c: char) -> char {
    if 'A' <= c && c <= 'Z' {
        (c as int + 32) as char
    } else {
        c
    }
}

/// Whether a byte may stand in a header value that is read as text.
pub open spec fn visible(b: u8) -> bool {
    32 <= b < 127 || b == 9
}

/// The text of the first header of that name, whatever the name's case: nothing
/// if there is no such header, or if its value is not visible ASCII.
pub open spec fn header_text(values: Map<Seq<char>, Seq<u8>>, name: Seq<char>) -> Option<Seq<char>> {
    let key = name.map_values(|c: char| lower(c));
    if values.contains_key(key) && (forall|i: int| 0 <= i < values[key].len() ==> visible(#[trigger] values[key][i])) {
        Some(values[key].map_values(|b: u8| b as char))
    } else {
        None
    }
}

/// `HeaderMap::get` with a string name, then `HeaderValue::to_str`: names are
/// compared without regard to ASCII case, the first value of the name counts,
/// and it is handed out only if all of it is visible ASCII or a tab.
#[verifier::external_body]
pub(crate) fn header_str<'a>(headers: &'a HeaderMap<HeaderValue>, name: &str) -> (r: Option<&'a str>)
    ensures
        text::opt_text(r) == header_text(header_values(*headers), name@),
{
    headers.get(name)?.to_str().ok()
}

/// Whether a header speaks of one connection alone and is never handed on. Names
/// are in lower case.
pub open spec fn hop_by_hop(name: Seq<char>) -> bool {
    ||| name == "connection"@
    ||| name == "keep-alive"@
    ||| name == "proxy-authenticate"@
    ||| name == "proxy-authorization"@
    ||| name == "proxy-connection"@
    ||| name == "te"@
    ||| name == "trailer"@
    ||| name == "transfer-encoding"@
    ||| name == "upgrade"@
}

/// Whether a header speaks of one connection alone.
pub fn is_hop_by_hop(name: &str) -> (r: bool)
    ensures
        r == hop_by_hop(name@),
{
    text::same_text(name, "connection") || text::same_text(name, "keep-alive") || text::same_text(
        name,
        "proxy-authenticate",
    ) || text::same_text(name, "proxy-authorization") || text::same_text(name, "proxy-connection") || text::same_text(
        name,
        "te",
    ) || text::same_text(name, "trailer") || text::same_text(name, "transfer-encoding") || text::same_text(
        name,
        "upgrade",
    )
}

/// Whether a request's header of that name reaches the backend.
pub open spec fn reaches_backend(name: Seq<char>, keyed: bool) -> bool {
    !hop_by_hop(name) && name != "host"@ && name != "content-length"@ && (keyed ==> name != "authorization"@)
}

/// Whether an answer's header of that name reaches the client.
pub open spec fn reaches_client(name: Seq<char>) -> bool {
    !hop_by_hop(name)
}

/// Whether a request's header of that name is handed on to the backend: all but
/// those of the connection, of the address and of the body's length, which the
/// request to the backend has of its own; and where the proxy has a key of its
/// own, it stands in place of the client's.
pub fn to_backend(name: &str, keyed: bool) -> (r: bool)
    ensures
        r == (!hop_by_hop(name@) && name@ != "host"@ && name@ != "content-length"@ && !(keyed && name@
            == "authorization"@)),
        r == reaches_backend(name@, keyed),
{
    !is_hop_by_hop(name) && !text::same_text(name, "host") && !text::same_text(name, "content-length") && !(keyed
        && text::same_text(name, "authorization"))
}

/// Whether an answer's header of that name is handed on to the client: all but
/// those of the connection.
pub fn to_client(name: &str) -> (r: bool)
    ensures
        r == !hop_by_hop(name@),
        r == reaches_client(name@),
{
    !is_hop_by_hop(name)
}

/// A header is found whatever the case of its name.
pub proof fn law_header_names_ignore_case(values: Map<Seq<char>, Seq<u8>>, a: Seq<char>, b: Seq<char>)
    requires
        a.len() == b.len(),
        forall|i: int| #![trigger a[i]]
            0 <= i < a.len() ==> a[i] == b[i] || ('A' <= a[i] && a[i] <= 'Z' && b[i] as int == a[i] as int + 32) || ('A'
                <= b[i] && b[i] <= 'Z' && a[i] as int == b[i] as int + 32),
    ensures
        header_text(values, a) == header_text(values, b),
{
    let f = |c: char| lower(c);
    assert(a.map_values(f) =~= b.map_values(f));
}

/// A header's text is its value, byte for byte, if every byte is a visible ASCII
/// character, a blank or a tab; else it has none.
pub proof fn law_header_text_is_the_value(values: Map<Seq<char>, Seq<u8>>, name: Seq<char>)
    requires
        forall|i: int| 0 <= i < name.len() ==> !('A' <= #[trigger] name[i] && name[i] <= 'Z'),
        values.contains_key(name),
    ensures
        header_text(values, name) is Some <==> forall|i: int|
            0 <= i < values[name].len() ==> 32 <= #[trigger] values[name][i] <= 126 || values[name][i] == 9,
        header_text(values, name) matches Some(t) ==> t.len() == values[name].len() && forall|i: int|
            0 <= i < t.len() ==> #[trigger] t[i] as int == values[name][i],
{
    assert(name.map_values(|c: char| lower(c)) =~= name);
    let v = values[name];
    if forall|i: int| 0 <= i < v.len() ==> 32 <= #[trigger] v[i] <= 126 || v[i] == 9 {
        assert forall|i: int| 0 <= i < v.len() implies visible(#[trigger] v[i]) by {}
    }
    if forall|i: int| 0 <= i < v.len() ==> visible(#[trigger] v[i]) {
        assert forall|i: int| 0 <= i < v.len() implies 32 <= #[trigger] v[i] <= 126 || v[i] == 9 by {
            assert(visible(v[i]));
        }
    }
}

/// The headers that are never handed on are those of the connection, and no
/// others.
pub proof fn law_connection_headers(name: Seq<char>)
    ensures
        hop_by_hop(name) <==> (name == "connection"@ || name == "keep-alive"@ || name == "proxy-authenticate"@ || name
            == "proxy-authorization"@ || name == "proxy-connection"@ || name == "te"@ || name == "trailer"@ || name
            == "transfer-encoding"@ || name == "upgrade"@),
{
}

/// Headers are passed through: a request's header reaches the backend unless it is
/// one of the connection, the address, the length of the body, or the client's key
/// where the proxy has its own; an answer's header reaches the client unless it is
/// one of the connection.
pub proof fn law_headers_are_passed_through(name: Seq<char>, keyed: bool)
    ensures
        ({
            let connection = name == "connection"@ || name == "keep-alive"@ || name == "proxy-authenticate"@ || name
                == "proxy-authorization"@ || name == "proxy-connection"@ || name == "te"@ || name == "trailer"@ || name
                == "transfer-encoding"@ || name == "upgrade"@;
            &&& reaches_client(name) <==> !connection
            &&& !reaches_backend(name, keyed) <==> connection || name == "host"@ || name == "content-length"@ || (name
                == "authorization"@ && keyed)
        }),
{
}

} // verus!
