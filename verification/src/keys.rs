//! Names: session keys, blob file names and the backend signature.

use crate::digest;
use crate::evict;
use crate::header;
use crate::json;
use crate::json::JsonView;
use crate::text;
use axum::http::HeaderMap;
use axum::http::HeaderValue;
use serde_json::Value;
use vstd::prelude::*;

verus! {

/// The longest name that [`sanitize`] hands out.
pub const MAX_NAME: usize = 96;

/// Whether a character may stand in a file name component as it is.
pub open spec fn safe_char(c: char) -> bool {
    ||| '0' <= c && c <= '9'
    ||| 'A' <= c && c <= 'Z'
    ||| 'a' <= c && c <= 'z'
    ||| c == '.'
    ||| c == '_'
    ||| c == '-'
}

/// A safe character as it is, a dash for any other.
pub open spec fn safe(c: char) -> char {
    if safe_char(c) {
        c
    } else {
        '-'
    }
}

/// The same text with every run of dots made a single dot.
pub open spec fn collapse_dots(s: Seq<char>) -> Seq<char>
    decreases s.len(),
{
    if s.len() == 0 {
        s
    } else if s.last() == '.' && s.len() >= 2 && s[s.len() - 2] == '.' {
        collapse_dots(s.drop_last())
    } else {
        collapse_dots(s.drop_last()).push(s.last())
    }
}

/// At most the first `n` characters.
pub open spec fn clipped(s: Seq<char>, n: nat) -> Seq<char> {
    if s.len() <= n {
        s
    } else {
        s.take(n as int)
    }
}

/// The file name component that stands for a client's text: unsafe characters
/// become dashes, runs of dots a single dot, the length is capped, and nothing
/// becomes `session`.
pub open spec fn sanitized(s: Seq<char>) -> Seq<char> {
    let name = clipped(collapse_dots(s.map_values(|c: char| safe(c))), MAX_NAME as nat);
    if name.len() == 0 {
        "session"@
    } else {
        name
    }
}

/// Whether two dots stand side by side.
pub open spec fn has_double_dot(s: Seq<char>) -> bool {
    exists|i: int| 0 <= i < s.len() - 1 && #[trigger] s[i] == '.' && s[i + 1] == '.'
}

/// Whether a text is made of safe characters alone, without two dots in a row.
pub open spec fn safe_component(s: Seq<char>) -> bool {
    &&& forall|i: int| 0 <= i < s.len() ==> safe_char(#[trigger] s[i])
    &&& !has_double_dot(s)
}

fn is_safe_char(c: char) -> (r: bool)
    ensures
        r == safe_char(c),
{
    ('0' <= c && c <= '9') || ('A' <= c && c <= 'Z') || ('a' <= c && c <= 'z') || c == '.' || c == '_' || c == '-'
}

/// Make a header-derived key a safe file name component: no `/`, no `..`, at
/// most [`MAX_NAME`] characters, never empty.
pub fn sanitize(s: &str) -> (out: String)
    ensures
        out@ == sanitized(s@),
{
    let mut out = String::new();
    let mut n: usize = 0;
    let mut after_dot = false;
    let ghost all = s@.map_values(|c: char| safe(c));
    for c in it: s.chars()
        invariant
            all == s@.map_values(|c: char| safe(c)),
            it.seq() == s@,
            out@ == clipped(collapse_dots(all.take(it.index())), MAX_NAME as nat),
            n == out@.len(),
            n <= MAX_NAME,
            after_dot == (it.index() > 0 && all[it.index() - 1] == '.'),
    {
        let d = if is_safe_char(c) { c } else { '-' };
        proof {
            let i = it.index();
            assert(all.take(i + 1).drop_last() =~= all.take(i));
        }
        if d == '.' && after_dot {
        } else {
            if n < MAX_NAME {
                out.push(d);
                n += 1;
            }
            after_dot = d == '.';
        }
    }
    proof {
        assert(all.take(all.len() as int) =~= all);
    }
    if n == 0 {
        "session".to_owned()
    } else {
        out
    }
}

/// The first `n` bytes in hexadecimal.
fn hex_head(bytes: &[u8], n: usize) -> (out: String)
    requires
        n <= bytes@.len(),
    ensures
        out@ == text::hex_text(bytes@).take(2 * n),
{
    let out = text::hex(vstd::slice::slice_subrange(bytes, 0, n));
    proof {
        assert(text::hex_text(bytes@.subrange(0, n as int)) =~= text::hex_text(bytes@).take(2 * n));
    }
    out
}

/// The first sixteen hexadecimal digits of a digest.
pub fn hex16(digest: &[u8]) -> (out: String)
    requires
        digest@.len() >= 8,
    ensures
        out@ == text::hex_text(digest@).take(16),
        out@.len() == 16,
        text::is_hex(out@),
{
    let out = hex_head(digest, 8);
    proof {
        assert forall|i: int| 0 <= i < out@.len() implies text::is_hex_digit(#[trigger] out@[i]) by {
            lemma_hex_is_safe(digest@, i);
        }
    }
    out
}

/// The elements of a request's `messages`, if it has such an array.
pub open spec fn messages_view(body: JsonView) -> Option<Seq<JsonView>> {
    match json::member_view(body, "messages"@) {
        Some(m) => json::elements_view(m),
        None => None,
    }
}

/// The text of every document in turn, each with a zero byte behind it.
pub open spec fn framed(docs: Seq<JsonView>) -> Seq<u8>
    decreases docs.len(),
{
    if docs.len() == 0 {
        Seq::empty()
    } else {
        framed(docs.drop_last()) + json::json_text(docs.last()) + seq![0u8]
    }
}

/// The key of a conversation whose messages have that digest.
pub open spec fn conversation_key_text(digest: Seq<u8>) -> Seq<char> {
    "conv-"@ + text::hex_text(digest).take(16)
}

/// The messages of a request; none if it has no such array.
pub open spec fn messages_of(body: JsonView) -> Seq<JsonView> {
    match messages_view(body) {
        Some(m) => m,
        None => Seq::empty(),
    }
}

/// The texts of documents, in order.
pub open spec fn texts_of(docs: Seq<JsonView>) -> Seq<Seq<u8>> {
    docs.map_values(|d: JsonView| json::json_text(d))
}

/// Whether no document's text holds a zero byte.
pub open spec fn all_zero_free(docs: Seq<JsonView>) -> bool {
    forall|i: int| 0 <= i < docs.len() ==> json::zero_free(json::json_text(#[trigger] docs[i]))
}

/// Whether the client's header names the session: it is there, and not empty.
pub open spec fn names_session(header: Option<Seq<char>>) -> bool {
    header matches Some(v) && v.len() > 0
}

/// The session key of a request: the client's header if it holds anything, else
/// the digest of the message list.
pub open spec fn session_key_text(header: Option<Seq<char>>, body: JsonView) -> Seq<char> {
    if names_session(header) {
        "hdr-"@ + sanitized(header->0)
    } else {
        conversation_key_text(digest::sha256(framed(messages_of(body))))
    }
}

/// A request's `messages`, if they are an array.
pub(crate) fn messages<'a>(body: &'a Value) -> (r: Option<&'a Vec<Value>>)
    ensures
        json::opt_json_views(r) == messages_view(json::json_view(*body)),
{
    match json::member(body, "messages") {
        Some(m) => json::elements(m),
        None => None,
    }
}

/// Append the text of a document and a zero byte.
pub fn frame(out: &mut Vec<u8>, text: Vec<u8>)
    ensures
        final(out)@ == old(out)@ + text@ + seq![0u8],
{
    let mut text = text;
    out.append(&mut text);
    out.push(0);
}

/// The key of a conversation from the digest of its messages.
pub fn conversation_key(digest: &[u8]) -> (key: String)
    requires
        digest@.len() >= 8,
    ensures
        key@ == conversation_key_text(digest@),
{
    text::join2("conv-", hex16(digest).as_str())
}

/// The key of a session that the client named itself.
pub fn header_key(value: &str) -> (key: String)
    ensures
        key@ == "hdr-"@ + sanitized(value@),
{
    text::join2("hdr-", sanitize(value).as_str())
}

/// The session key of a request: the trusted header first, else a hash of the
/// full message list.
pub fn session_key(headers: &HeaderMap<HeaderValue>, body: &Value, header_name: &str) -> (key: String)
    ensures
        key@ == session_key_text(
            header::header_text(header::header_values(*headers), header_name@),
            json::json_view(*body),
        ),
        safe_component(key@),
        !names_session(header::header_text(header::header_values(*headers), header_name@)) ==> {
            &&& key@.len() == 21
            &&& text::is_hex(key@.skip(5))
            &&& all_zero_free(messages_of(json::json_view(*body)))
        },
{
    if let Some(v) = header::header_str(headers, header_name) {
        if !v.is_empty() {
            proof {
                law_header_key_is_safe(v@);
            }
            return header_key(v);
        }
    }
    let mut data: Vec<u8> = Vec::new();
    if let Some(msgs) = messages(body) {
        let ghost docs = json::json_views(msgs@);
        let mut i: usize = 0;
        while i < msgs.len()
            invariant
                i <= msgs@.len(),
                docs == json::json_views(msgs@),
                data@ == framed(docs.take(i as int)),
                all_zero_free(docs.take(i as int)),
            decreases msgs@.len() - i,
        {
            let text = json::to_text(&msgs[i]);
            proof {
                let more = docs.take(i + 1);
                assert(more.drop_last() =~= docs.take(i as int));
                assert forall|j: int| 0 <= j < more.len() implies json::zero_free(json::json_text(#[trigger] more[j])) by {
                    if j < i {
                        assert(more[j] == docs.take(i as int)[j]);
                    }
                }
            }
            frame(&mut data, text);
            i += 1;
        }
        proof {
            assert(docs.take(docs.len() as int) =~= docs);
        }
    }
    let digest = digest::sha256_digest(data.as_slice());
    proof {
        law_conversation_key_is_safe(digest@);
    }
    conversation_key(digest.as_slice())
}

/// The file name of a session's blob under a backend signature.
pub open spec fn blob_name_text(session: Seq<char>, sig: Seq<char>) -> Seq<char> {
    session + "__"@ + sig + ".bin"@
}

/// The name that a blob is written under before it is published.
pub open spec fn scratch_name_text(blob: Seq<char>) -> Seq<char> {
    blob + ".save"@
}

/// The file name of a session's blob. The backend signature is part of it: a
/// blob saved under one signature is never looked for under another.
pub fn blob_name(session: &str, sig: &str) -> (name: String)
    ensures
        name@ == blob_name_text(session@, sig@),
{
    text::join2(text::join3(session, "__", sig).as_str(), ".bin")
}

/// The name that a blob is written under before it is published.
pub fn scratch_name(blob: &str) -> (name: String)
    ensures
        name@ == scratch_name_text(blob@),
{
    text::join2(blob, ".save")
}

/// The properties that decide whether a blob fits a backend: the model, the
/// slots, the context, the template, the types of the cache, and the draft.
pub open spec fn signature_keys_view() -> Seq<Seq<char>> {
    seq![
        "model_path"@,
        "total_slots"@,
        "n_ctx"@,
        "chat_template"@,
        "add_bos_token"@,
        "bos_token"@,
        "cache_type_k"@,
        "cache_type_v"@,
        "type_k"@,
        "type_v"@,
        "draft"@,
        "draft_model"@,
        "spec_type"@,
        "spec_draft_model"@,
    ]
}

/// The text of one backend property; nothing if the backend does not report it.
pub open spec fn property_text(props: JsonView, key: Seq<char>) -> Option<Seq<u8>> {
    match json::member_view(props, key) {
        Some(v) => Some(json::json_text(v)),
        None => None,
    }
}

/// A length in groups of seven bits, the lowest first; every group but the last
/// has the high bit set.
pub open spec fn length_bytes(n: nat) -> Seq<u8>
    decreases n,
{
    if n < 128 {
        seq![n as u8]
    } else {
        seq![(128 + n % 128) as u8] + length_bytes(n / 128)
    }
}

/// An optional text that can be told from what follows it: a zero for none, else
/// a one, the text's length, and the text.
pub open spec fn delimited(text: Option<Seq<u8>>) -> Seq<u8> {
    match text {
        Some(t) => seq![1u8] + length_bytes(t.len()) + t,
        None => seq![0u8],
    }
}

/// The texts of the properties in a row, each delimited.
pub open spec fn properties_text(props: JsonView, keys: Seq<Seq<char>>) -> Seq<u8>
    decreases keys.len(),
{
    if keys.len() == 0 {
        Seq::empty()
    } else {
        delimited(property_text(props, keys[0])) + properties_text(props, keys.drop_first())
    }
}

/// What a backend's signature is a digest of: the properties that decide whether
/// a blob fits it.
pub open spec fn fingerprint(props: JsonView) -> Seq<u8> {
    properties_text(props, signature_keys_view())
}

/// The signature of a backend whose fingerprint has that digest.
pub open spec fn signature_text(digest: Seq<u8>) -> Seq<char> {
    text::hex_text(digest).take(12)
}

/// The signature from the digest of a fingerprint.
pub fn signature(digest: &[u8]) -> (sig: String)
    requires
        digest@.len() >= 6,
    ensures
        sig@ == signature_text(digest@),
{
    hex_head(digest, 6)
}

fn signature_keys() -> (keys: Vec<&'static str>)
    ensures
        keys@.map_values(|k: &'static str| k@) == signature_keys_view(),
{
    let keys: Vec<&'static str> = vec![
        "model_path",
        "total_slots",
        "n_ctx",
        "chat_template",
        "add_bos_token",
        "bos_token",
        "cache_type_k",
        "cache_type_v",
        "type_k",
        "type_v",
        "draft",
        "draft_model",
        "spec_type",
        "spec_draft_model",
    ];
    assert(keys@.map_values(|k: &'static str| k@) =~= signature_keys_view());
    keys
}

fn push_length(out: &mut Vec<u8>, n: u64)
    ensures
        final(out)@ == old(out)@ + length_bytes(n as nat),
    decreases n,
{
    if n < 128 {
        out.push(n as u8);
    } else {
        out.push((128 + n % 128) as u8);
        push_length(out, n / 128);
    }
}

/// Append an optional text so that it can be told from what follows it.
pub fn delimit(out: &mut Vec<u8>, text: Option<Vec<u8>>)
    ensures
        final(out)@ == old(out)@ + delimited(
            match text {
                Some(t) => Some(t@),
                None => None,
            },
        ),
{
    match text {
        Some(t) => {
            let mut t = t;
            out.push(1);
            push_length(out, t.len() as u64);
            out.append(&mut t);
        },
        None => {
            out.push(0);
        },
    }
}

/// The compatibility signature of a backend, from the properties that it
/// reports (nothing, if it could not be asked).
pub fn backend_signature(props: Option<&Value>) -> (sig: String)
    ensures
        sig@ == signature_text(
            digest::sha256(
                match props {
                    Some(p) => fingerprint(json::json_view(*p)),
                    None => Seq::empty(),
                },
            ),
        ),
        sig@.len() == 12,
        safe_component(sig@),
        forall|i: int| 0 <= i < sig@.len() ==> #[trigger] sig@[i] != '.',
{
    let mut data: Vec<u8> = Vec::new();
    if let Some(p) = props {
        let keys = signature_keys();
        let ghost names = keys@.map_values(|k: &'static str| k@);
        let ghost whole = fingerprint(json::json_view(*p));
        let mut i: usize = 0;
        assert(names.skip(0) =~= names);
        while i < keys.len()
            invariant
                i <= keys@.len(),
                names == keys@.map_values(|k: &'static str| k@),
                whole == data@ + properties_text(json::json_view(*p), names.skip(i as int)),
            decreases keys@.len() - i,
        {
            let text = match json::member(p, keys[i]) {
                Some(v) => Some(json::to_text(v)),
                None => None,
            };
            delimit(&mut data, text);
            proof {
                assert(names.skip(i as int)[0] == names[i as int]);
                assert(names.skip(i as int).drop_first() =~= names.skip(i + 1));
            }
            i += 1;
        }
        assert(data@ =~= whole);
    }
    let digest = digest::sha256_digest(data.as_slice());
    proof {
        law_signature_is_safe(digest@);
    }
    signature(digest.as_slice())
}

proof fn lemma_collapse(s: Seq<char>)
    ensures
        collapse_dots(s).len() <= s.len(),
        (collapse_dots(s).len() == 0) == (s.len() == 0),
        s.len() > 0 ==> collapse_dots(s).last() == s.last(),
        !has_double_dot(collapse_dots(s)),
        forall|i: int| 0 <= i < collapse_dots(s).len() ==> s.contains(#[trigger] collapse_dots(s)[i]),
    decreases s.len(),
{
    if s.len() > 0 {
        let head = s.drop_last();
        lemma_collapse(head);
        let c = collapse_dots(head);
        assert forall|x: char| head.contains(x) implies s.contains(x) by {
            let i = choose|i: int| 0 <= i < head.len() && head[i] == x;
            assert(s[i] == x);
        }
        let whole = collapse_dots(s);
        if s.last() == '.' && s.len() >= 2 && s[s.len() - 2] == '.' {
            assert(head.last() == s[s.len() - 2]);
        } else {
            assert(whole == c.push(s.last()));
            assert forall|i: int| 0 <= i < whole.len() implies s.contains(#[trigger] whole[i]) by {
                if i == whole.len() - 1 {
                    assert(s[s.len() - 1] == whole[i]);
                } else {
                    assert(head.contains(c[i]));
                }
            }
            if has_double_dot(whole) {
                let i = choose|i: int| 0 <= i < whole.len() - 1 && #[trigger] whole[i] == '.' && whole[i + 1] == '.';
                if i + 1 < c.len() {
                    assert(c[i] == '.' && c[i + 1] == '.');
                } else {
                    assert(c.last() == head.last());
                    assert(s[s.len() - 2] == head.last());
                }
            }
        }
    }
}

proof fn lemma_collapse_fixed(s: Seq<char>)
    requires
        !has_double_dot(s),
    ensures
        collapse_dots(s) == s,
    decreases s.len(),
{
    if s.len() > 0 {
        let head = s.drop_last();
        if has_double_dot(head) {
            let i = choose|i: int| 0 <= i < head.len() - 1 && #[trigger] head[i] == '.' && head[i + 1] == '.';
            assert(s[i] == '.' && s[i + 1] == '.');
        }
        lemma_collapse_fixed(head);
        if s.len() >= 2 {
            let i = s.len() - 2;
            assert(!(s[i] == '.' && s[i + 1] == '.'));
        }
        assert(collapse_dots(s) =~= s);
    }
}

/// Whatever a client sends, what comes of it is a safe file name component: not
/// empty, of bounded length, made of letters, digits, dots, underscores and
/// dashes alone, and without two dots in a row.
pub proof fn law_sanitized_is_safe(s: Seq<char>)
    ensures
        1 <= sanitized(s).len() <= MAX_NAME,
        forall|i: int| 0 <= i < sanitized(s).len() ==> safe_char(#[trigger] sanitized(s)[i]),
        !has_double_dot(sanitized(s)),
{
    reveal_strlit("session");
    let mapped = s.map_values(|c: char| safe(c));
    lemma_collapse(mapped);
    let c = collapse_dots(mapped);
    let n = clipped(c, MAX_NAME as nat);
    assert forall|i: int| 0 <= i < n.len() implies safe_char(#[trigger] n[i]) by {
        assert(n[i] == c[i]);
        assert(mapped.contains(c[i]));
    }
    if has_double_dot(n) {
        let i = choose|i: int| 0 <= i < n.len() - 1 && #[trigger] n[i] == '.' && n[i + 1] == '.';
        assert(c[i] == '.' && c[i + 1] == '.');
    }
}

/// A name that was made safe once stays as it is.
pub proof fn law_sanitize_is_idempotent(s: Seq<char>)
    ensures
        sanitized(sanitized(s)) == sanitized(s),
{
    law_sanitized_is_safe(s);
    let n = sanitized(s);
    assert(n.map_values(|c: char| safe(c)) =~= n);
    lemma_collapse_fixed(n);
}

proof fn lemma_hex_is_safe(bytes: Seq<u8>, i: int)
    requires
        0 <= i < text::hex_text(bytes).len(),
    ensures
        safe_char(text::hex_text(bytes)[i]),
        text::is_hex_digit(text::hex_text(bytes)[i]),
        text::hex_text(bytes)[i] != '.',
{
    let b = bytes[i / 2];
    assert(0 <= b as int / 16 < 16);
    assert(0 <= b as int % 16 < 16);
}

/// The key of a session that the client named is a safe file name component.
pub proof fn law_header_key_is_safe(name: Seq<char>)
    ensures
        safe_component("hdr-"@ + sanitized(name)),
{
    reveal_strlit("hdr-");
    law_sanitized_is_safe(name);
    let key = "hdr-"@ + sanitized(name);
    assert forall|i: int| 0 <= i < key.len() implies safe_char(#[trigger] key[i]) by {
        if i >= 4 {
            assert(safe_char(sanitized(name)[i - 4]));
        }
    }
    if has_double_dot(key) {
        let i = choose|i: int| 0 <= i < key.len() - 1 && #[trigger] key[i] == '.' && key[i + 1] == '.';
        assert(i >= 4);
        assert(sanitized(name)[i - 4] == '.' && sanitized(name)[i - 4 + 1] == '.');
    }
}

/// The key of a session that the client did not name is a safe file name
/// component: `conv-` and sixteen hexadecimal digits.
pub proof fn law_conversation_key_is_safe(digest: Seq<u8>)
    requires
        digest.len() >= 8,
    ensures
        safe_component(conversation_key_text(digest)),
        conversation_key_text(digest).len() == 21,
        text::is_hex(conversation_key_text(digest).skip(5)),
{
    reveal_strlit("conv-");
    let key = conversation_key_text(digest);
    assert forall|i: int| 0 <= i < key.skip(5).len() implies text::is_hex_digit(#[trigger] key.skip(5)[i]) by {
        assert(key.skip(5)[i] == text::hex_text(digest)[i]);
        lemma_hex_is_safe(digest, i);
    }
    assert forall|i: int| 0 <= i < key.len() implies safe_char(#[trigger] key[i]) && key[i] != '.' by {
        if i >= 5 {
            assert(key[i] == text::hex_text(digest)[i - 5]);
            lemma_hex_is_safe(digest, i - 5);
        }
    }
}

proof fn lemma_last_frame(a: Seq<u8>, s: Seq<u8>, b: Seq<u8>, t: Seq<u8>)
    requires
        a + s + seq![0u8] == b + t + seq![0u8],
        json::zero_free(s),
        json::zero_free(t),
        a.len() > 0 ==> a.last() == 0,
        b.len() > 0 ==> b.last() == 0,
    ensures
        a == b,
        s == t,
{
    let x = a + s + seq![0u8];
    let y = b + t + seq![0u8];
    assert(x.len() == a.len() + s.len() + 1);
    assert(y.len() == b.len() + t.len() + 1);
    if a.len() > b.len() {
        let i = a.len() - 1;
        assert(x[i] == a[i]);
        assert(y[i] == t[i - b.len()]);
    }
    if b.len() > a.len() {
        let i = b.len() - 1;
        assert(y[i] == b[i]);
        assert(x[i] == s[i - a.len()]);
    }
    assert forall|i: int| 0 <= i < a.len() implies a[i] == b[i] by {
        assert(x[i] == a[i] && y[i] == b[i]);
    }
    assert(a =~= b);
    assert forall|i: int| 0 <= i < s.len() implies s[i] == t[i] by {
        assert(x[a.len() + i] == s[i] && y[a.len() + i] == t[i]);
    }
    assert(s =~= t);
}

proof fn lemma_framed_end(docs: Seq<JsonView>)
    ensures
        (framed(docs).len() == 0) == (docs.len() == 0),
        framed(docs).len() > 0 ==> framed(docs).last() == 0,
{
    if docs.len() > 0 {
        let f = framed(docs);
        assert(f.last() == 0);
    }
}

/// Different message lists are hashed from different bytes: as no text holds a
/// zero byte, the texts and their order can be read off what is hashed.
pub proof fn law_framing_tells_messages_apart(a: Seq<JsonView>, b: Seq<JsonView>)
    requires
        all_zero_free(a),
        all_zero_free(b),
    ensures
        framed(a) == framed(b) <==> texts_of(a) == texts_of(b),
    decreases a.len() + b.len(),
{
    lemma_framed_end(a);
    lemma_framed_end(b);
    assert(texts_of(a).len() == a.len() && texts_of(b).len() == b.len());
    if a.len() == 0 && b.len() == 0 {
        assert(texts_of(a) =~= texts_of(b));
        assert(framed(a) =~= framed(b));
    } else if a.len() > 0 && b.len() > 0 {
        let (x, y) = (a.drop_last(), b.drop_last());
        let (s, t) = (json::json_text(a.last()), json::json_text(b.last()));
        assert forall|i: int| 0 <= i < x.len() implies json::zero_free(json::json_text(#[trigger] x[i])) by {
            assert(x[i] == a[i]);
        }
        assert forall|i: int| 0 <= i < y.len() implies json::zero_free(json::json_text(#[trigger] y[i])) by {
            assert(y[i] == b[i]);
        }
        law_framing_tells_messages_apart(x, y);
        lemma_framed_end(x);
        lemma_framed_end(y);
        assert(a[a.len() - 1] == a.last() && b[b.len() - 1] == b.last());
        assert(texts_of(a) =~= texts_of(x).push(s));
        assert(texts_of(b) =~= texts_of(y).push(t));
        if framed(a) == framed(b) {
            lemma_last_frame(framed(x), s, framed(y), t);
        }
        if texts_of(a) == texts_of(b) {
            assert(texts_of(x) =~= texts_of(a).drop_last());
            assert(texts_of(y) =~= texts_of(b).drop_last());
            assert(texts_of(a).last() == s && texts_of(b).last() == t);
        }
    }
}

/// A message that is appended changes what is hashed.
pub proof fn law_appended_message_changes_what_is_hashed(docs: Seq<JsonView>, message: JsonView)
    ensures
        framed(docs.push(message)) != framed(docs),
{
    assert(docs.push(message).drop_last() =~= docs);
    assert(framed(docs.push(message)).len() > framed(docs).len());
}

/// Whether the shortened digest tells two byte strings apart: they share it only
/// if they are the same.
pub open spec fn no_collision(x: Seq<u8>, y: Seq<u8>) -> bool {
    text::hex_text(digest::sha256(x)).take(16) == text::hex_text(digest::sha256(y)).take(16) ==> x == y
}

proof fn lemma_conversation_keys(x: Seq<u8>, y: Seq<u8>)
    requires
        no_collision(x, y),
    ensures
        conversation_key_text(digest::sha256(x)) == conversation_key_text(digest::sha256(y)) <==> x == y,
{
    let p = "conv-"@;
    let dx = text::hex_text(digest::sha256(x)).take(16);
    let dy = text::hex_text(digest::sha256(y)).take(16);
    assert((p + dx).skip(p.len() as int) =~= dx);
    assert((p + dy).skip(p.len() as int) =~= dy);
}

/// Without a name, two requests share a key if and only if their messages are the
/// same, text by text and in the same order, unless the shortened digest collides
/// on them.
pub proof fn law_unnamed_keys_tell_messages_apart(
    ha: Option<Seq<char>>,
    a: JsonView,
    hb: Option<Seq<char>>,
    b: JsonView,
)
    requires
        !names_session(ha),
        !names_session(hb),
        all_zero_free(messages_of(a)),
        all_zero_free(messages_of(b)),
        no_collision(framed(messages_of(a)), framed(messages_of(b))),
    ensures
        session_key_text(ha, a) == session_key_text(hb, b) <==> texts_of(messages_of(a)) == texts_of(messages_of(b)),
{
    law_framing_tells_messages_apart(messages_of(a), messages_of(b));
    lemma_conversation_keys(framed(messages_of(a)), framed(messages_of(b)));
}

/// Without a name, a message that is appended makes another session, unless the
/// shortened digest collides.
pub proof fn law_appended_message_is_another_session(
    ha: Option<Seq<char>>,
    a: JsonView,
    hb: Option<Seq<char>>,
    b: JsonView,
    message: JsonView,
)
    requires
        !names_session(ha),
        !names_session(hb),
        messages_of(b) == messages_of(a).push(message),
        no_collision(framed(messages_of(a)), framed(messages_of(b))),
    ensures
        session_key_text(ha, a) != session_key_text(hb, b),
{
    law_appended_message_changes_what_is_hashed(messages_of(a), message);
    lemma_conversation_keys(framed(messages_of(a)), framed(messages_of(b)));
}

/// Without a name, two messages of different texts that change places make
/// another session, unless the shortened digest collides.
pub proof fn law_reordered_messages_are_another_session(
    ha: Option<Seq<char>>,
    a: JsonView,
    hb: Option<Seq<char>>,
    b: JsonView,
    i: int,
    j: int,
)
    requires
        !names_session(ha),
        !names_session(hb),
        all_zero_free(messages_of(a)),
        0 <= i < messages_of(a).len(),
        0 <= j < messages_of(a).len(),
        json::json_text(messages_of(a)[i]) != json::json_text(messages_of(a)[j]),
        messages_of(b) == messages_of(a).update(i, messages_of(a)[j]).update(j, messages_of(a)[i]),
        no_collision(framed(messages_of(a)), framed(messages_of(b))),
    ensures
        session_key_text(ha, a) != session_key_text(hb, b),
{
    let (x, y) = (messages_of(a), messages_of(b));
    assert forall|k: int| 0 <= k < y.len() implies json::zero_free(json::json_text(#[trigger] y[k])) by {
        if k == i {
            assert(y[k] == x[j]);
        } else if k == j {
            assert(y[k] == x[i]);
        } else {
            assert(y[k] == x[k]);
        }
    }
    assert(texts_of(x)[i] != texts_of(y)[i]);
    law_unnamed_keys_tell_messages_apart(ha, a, hb, b);
}

/// A session that the client names keeps its key from turn to turn, whatever the
/// messages are.
pub proof fn law_named_session_keeps_its_key(name: Seq<char>, earlier: JsonView, later: JsonView)
    requires
        name.len() > 0,
    ensures
        session_key_text(Some(name), earlier) == session_key_text(Some(name), later),
{
}

/// Without a name (no header, an empty one, or one that is not readable as text),
/// requests with the same messages have the same key, whatever else they hold.
pub proof fn law_unnamed_session_is_its_messages(
    ha: Option<Seq<char>>,
    a: JsonView,
    hb: Option<Seq<char>>,
    b: JsonView,
)
    requires
        !names_session(ha),
        !names_session(hb),
        messages_of(a) == messages_of(b),
    ensures
        session_key_text(ha, a) == session_key_text(hb, b),
{
}

/// A session that the client named never has the key of one that it did not
/// name.
pub proof fn law_named_and_unnamed_sessions_are_apart(name: Seq<char>, a: JsonView, b: JsonView)
    requires
        name.len() > 0,
    ensures
        session_key_text(Some(name), a) != session_key_text(None, b),
{
    reveal_strlit("hdr-");
    reveal_strlit("conv-");
    assert(session_key_text(Some(name), a)[0] == 'h');
    assert(session_key_text(None, b)[0] == 'c');
}

/// Every backend signature is twelve hexadecimal digits long: a safe file name
/// component without a dot.
pub proof fn law_signature_is_safe(digest: Seq<u8>)
    requires
        digest.len() >= 6,
    ensures
        signature_text(digest).len() == 12,
        safe_component(signature_text(digest)),
        forall|i: int| 0 <= i < 12 ==> #[trigger] signature_text(digest)[i] != '.',
{
    let sig = signature_text(digest);
    assert forall|i: int| 0 <= i < sig.len() implies safe_char(#[trigger] sig[i]) && sig[i] != '.' by {
        assert(sig[i] == text::hex_text(digest)[i]);
        lemma_hex_is_safe(digest, i);
    }
}

proof fn lemma_length_is_delimited(a: nat, x: Seq<u8>, b: nat, y: Seq<u8>)
    requires
        length_bytes(a) + x == length_bytes(b) + y,
    ensures
        a == b,
        x == y,
    decreases a,
{
    let s = length_bytes(a) + x;
    let t = length_bytes(b) + y;
    assert(s[0] == length_bytes(a)[0]);
    assert(t[0] == length_bytes(b)[0]);
    if a < 128 {
        assert(b < 128);
        assert(s.skip(1) =~= x);
        assert(t.skip(1) =~= y);
    } else {
        assert(b >= 128);
        assert(s.skip(1) =~= length_bytes(a / 128) + x);
        assert(t.skip(1) =~= length_bytes(b / 128) + y);
        lemma_length_is_delimited(a / 128, x, b / 128, y);
    }
}

proof fn lemma_delimited(a: Option<Seq<u8>>, x: Seq<u8>, b: Option<Seq<u8>>, y: Seq<u8>)
    requires
        delimited(a) + x == delimited(b) + y,
    ensures
        a == b,
        x == y,
{
    let s = delimited(a) + x;
    let t = delimited(b) + y;
    assert(s[0] == delimited(a)[0]);
    assert(t[0] == delimited(b)[0]);
    match (a, b) {
        (Some(u), Some(v)) => {
            assert(s.skip(1) =~= length_bytes(u.len()) + (u + x));
            assert(t.skip(1) =~= length_bytes(v.len()) + (v + y));
            lemma_length_is_delimited(u.len(), u + x, v.len(), v + y);
            assert((u + x).take(u.len() as int) =~= u);
            assert((v + y).take(u.len() as int) =~= v);
            assert((u + x).skip(u.len() as int) =~= x);
            assert((v + y).skip(u.len() as int) =~= y);
        },
        (None, None) => {
            assert(s.skip(1) =~= x);
            assert(t.skip(1) =~= y);
        },
        _ => {},
    }
}

proof fn lemma_properties(p: JsonView, q: JsonView, keys: Seq<Seq<char>>, i: int)
    requires
        properties_text(p, keys) == properties_text(q, keys),
        0 <= i < keys.len(),
    ensures
        property_text(p, keys[i]) == property_text(q, keys[i]),
    decreases keys.len(),
{
    lemma_delimited(
        property_text(p, keys[0]),
        properties_text(p, keys.drop_first()),
        property_text(q, keys[0]),
        properties_text(q, keys.drop_first()),
    );
    if i > 0 {
        lemma_properties(p, q, keys.drop_first(), i - 1);
    }
}

proof fn lemma_same_properties(p: JsonView, q: JsonView, keys: Seq<Seq<char>>)
    requires
        forall|i: int| 0 <= i < keys.len() ==> property_text(p, #[trigger] keys[i]) == property_text(q, keys[i]),
    ensures
        properties_text(p, keys) == properties_text(q, keys),
    decreases keys.len(),
{
    if keys.len() > 0 {
        assert(property_text(p, keys[0]) == property_text(q, keys[0]));
        assert forall|i: int| 0 <= i < keys.drop_first().len() implies property_text(p, #[trigger] keys.drop_first()[i])
            == property_text(q, keys.drop_first()[i]) by {
            assert(keys.drop_first()[i] == keys[i + 1]);
        }
        lemma_same_properties(p, q, keys.drop_first());
    }
}

/// Whether two backends agree on every property that decides whether a blob
/// fits: both report it with the same text, or neither reports it.
pub open spec fn same_properties(p: JsonView, q: JsonView) -> bool {
    forall|i: int|
        0 <= i < signature_keys_view().len() ==> property_text(p, #[trigger] signature_keys_view()[i]) == property_text(
            q,
            signature_keys_view()[i],
        )
}

/// A fingerprint tells backends apart: two backends have the same fingerprint if
/// and only if they agree on every property that decides whether a blob fits. No
/// backend that answers has the empty fingerprint of one that could not be asked.
pub proof fn law_fingerprint_tells_backends_apart(p: JsonView, q: JsonView)
    ensures
        fingerprint(p).len() > 0,
        fingerprint(p) == fingerprint(q) <==> same_properties(p, q),
{
    let keys = signature_keys_view();
    if fingerprint(p) == fingerprint(q) {
        assert forall|i: int| 0 <= i < keys.len() implies property_text(p, #[trigger] keys[i]) == property_text(q, keys[i]) by {
            lemma_properties(p, q, keys, i);
        }
    }
    if same_properties(p, q) {
        lemma_same_properties(p, q, keys);
    }
}

/// A blob saved under one backend is looked for under another only if the two
/// agree on every property that decides whether it fits, unless the shortened
/// digest collides on their fingerprints.
pub proof fn law_blob_is_found_only_under_a_fitting_backend(session: Seq<char>, other: Seq<char>, p: JsonView, q: JsonView)
    requires
        signature_text(digest::sha256(fingerprint(p))).len() == 12,
        signature_text(digest::sha256(fingerprint(q))).len() == 12,
        signature_text(digest::sha256(fingerprint(p))) == signature_text(digest::sha256(fingerprint(q))) ==> fingerprint(p)
            == fingerprint(q),
    ensures
        ({
            let saved = blob_name_text(session, signature_text(digest::sha256(fingerprint(p))));
            let sought = blob_name_text(other, signature_text(digest::sha256(fingerprint(q))));
            saved == sought <==> session == other && same_properties(p, q)
        }),
{
    law_fingerprint_tells_backends_apart(p, q);
    law_blob_names_are_apart(
        session,
        signature_text(digest::sha256(fingerprint(p))),
        other,
        signature_text(digest::sha256(fingerprint(q))),
    );
}

/// The file name of a blob is a safe file name component: a save or a restore
/// never leaves the cache directory.
pub proof fn law_blob_name_is_safe(session: Seq<char>, sig: Seq<char>)
    requires
        safe_component(session),
        safe_component(sig),
        forall|i: int| 0 <= i < sig.len() ==> #[trigger] sig[i] != '.',
    ensures
        safe_component(blob_name_text(session, sig)),
        safe_component(scratch_name_text(blob_name_text(session, sig))),
{
    reveal_strlit("__");
    reveal_strlit(".bin");
    reveal_strlit(".save");
    let n = blob_name_text(session, sig);
    let f = scratch_name_text(n);
    let a = session.len() as int;
    let b = a + 2 + sig.len();
    assert(n.len() == b + 4);
    assert forall|i: int| 0 <= i < f.len() implies safe_char(#[trigger] f[i]) by {
        if i < a {
            assert(f[i] == session[i]);
        } else if a + 2 <= i < b {
            assert(f[i] == sig[i - a - 2]);
        }
    }
    if has_double_dot(f) {
        let i = choose|i: int| 0 <= i < f.len() - 1 && #[trigger] f[i] == '.' && f[i + 1] == '.';
        if i + 1 < a {
            assert(session[i] == '.' && session[i + 1] == '.');
        } else if a + 2 <= i < b {
            assert(f[i] == sig[i - a - 2]);
        }
    }
    assert forall|i: int| 0 <= i < n.len() implies safe_char(#[trigger] n[i]) by {
        assert(f[i] == n[i]);
    }
    if has_double_dot(n) {
        let i = choose|i: int| 0 <= i < n.len() - 1 && #[trigger] n[i] == '.' && n[i + 1] == '.';
        assert(f[i] == '.' && f[i + 1] == '.');
    }
}

/// Compatibility: with signatures of one length, two blobs share a name
/// if and only if both the session and the backend signature are the same. What
/// was saved for a session is what is restored for it, and a blob saved under
/// one signature is never looked for under another.
pub proof fn law_blob_names_are_apart(s1: Seq<char>, g1: Seq<char>, s2: Seq<char>, g2: Seq<char>)
    requires
        g1.len() == g2.len(),
    ensures
        blob_name_text(s1, g1) == blob_name_text(s2, g2) <==> s1 == s2 && g1 == g2,
{
    reveal_strlit("__");
    reveal_strlit(".bin");
    let n1 = blob_name_text(s1, g1);
    let n2 = blob_name_text(s2, g2);
    if n1 == n2 {
        assert(n1.len() == s1.len() + 2 + g1.len() + 4);
        assert(n2.len() == s2.len() + 2 + g2.len() + 4);
        assert forall|i: int| 0 <= i < s1.len() implies s1[i] == s2[i] by {
            assert(n1[i] == s1[i]);
            assert(n2[i] == s2[i]);
        }
        assert(s1 =~= s2);
        assert forall|i: int| 0 <= i < g1.len() implies g1[i] == g2[i] by {
            assert(n1[s1.len() + 2 + i] == g1[i]);
            assert(n2[s2.len() + 2 + i] == g2[i]);
        }
        assert(g1 =~= g2);
    }
}

/// A published blob counts as one: its name has the blobs' extension.
pub proof fn law_blob_is_a_blob_file(session: Seq<char>, sig: Seq<char>)
    ensures
        evict::blob_file_name(blob_name_text(session, sig)),
{
    reveal_strlit("__");
    reveal_strlit(".bin");
    let n = blob_name_text(session, sig);
    assert(n.skip(n.len() - 4) =~= seq!['.', 'b', 'i', 'n']);
}

/// A scratch file never counts as a blob: a save that is under way, or was cut
/// short, is neither served nor evicted.
pub proof fn law_scratch_is_no_blob(blob: Seq<char>)
    ensures
        !evict::blob_file_name(scratch_name_text(blob)),
        scratch_name_text(blob) != blob,
{
    reveal_strlit(".save");
    let n = scratch_name_text(blob);
    assert(n.len() == blob.len() + 5);
    assert(n.skip(n.len() - 4)[0] == 's');
}

/// Character by character: a client's text of no more than ninety-six characters
/// and without two dots in a row keeps its length; its letters, digits, dots,
/// underscores and dashes stay as they are, and any other character becomes a
/// dash. Of a longer one the first ninety-six characters are left.
pub proof fn law_sanitize_works_character_by_character(s: Seq<char>)
    requires
        s.len() > 0,
        forall|i: int| 0 <= i < s.len() - 1 ==> !(#[trigger] s[i] == '.' && s[i + 1] == '.'),
    ensures
        sanitized(s).len() == if s.len() <= 96 { s.len() as int } else { 96 },
        forall|i: int| #![trigger sanitized(s)[i]]
            0 <= i < sanitized(s).len() ==> sanitized(s)[i] == (if ('a' <= s[i] && s[i] <= 'z') || ('A' <= s[i] && s[i] <= 'Z') || (
            '0' <= s[i] && s[i] <= '9') || s[i] == '.' || s[i] == '_' || s[i] == '-' {
                s[i]
            } else {
                '-'
            }),
{
    let mapped = s.map_values(|c: char| safe(c));
    if has_double_dot(mapped) {
        let i = choose|i: int| 0 <= i < mapped.len() - 1 && #[trigger] mapped[i] == '.' && mapped[i + 1] == '.';
        assert(s[i] == '.' && s[i + 1] == '.');
    }
    lemma_collapse_fixed(mapped);
}

proof fn lemma_second_dot_is_dropped(a: Seq<char>, b: Seq<char>)
    ensures
        collapse_dots(a + seq!['.', '.'] + b) == collapse_dots(a + seq!['.'] + b),
    decreases b.len(),
{
    let x = a + seq!['.', '.'] + b;
    let y = a + seq!['.'] + b;
    if b.len() == 0 {
        assert(x.drop_last() =~= y);
    } else {
        lemma_second_dot_is_dropped(a, b.drop_last());
        assert(x.drop_last() =~= a + seq!['.', '.'] + b.drop_last());
        assert(y.drop_last() =~= a + seq!['.'] + b.drop_last());
        assert(x.last() == b.last() && y.last() == b.last());
        if b.len() == 1 {
            assert(x[x.len() - 2] == '.' && y[y.len() - 2] == '.');
        } else {
            assert(x[x.len() - 2] == b[b.len() - 2] && y[y.len() - 2] == b[b.len() - 2]);
        }
    }
}

/// A dot behind a dot counts for nothing, wherever it stands, and a text of no
/// characters is named `session`.
pub proof fn law_sanitize_drops_repeated_dots(a: Seq<char>, b: Seq<char>)
    ensures
        sanitized(a + seq!['.', '.'] + b) == sanitized(a + seq!['.'] + b),
        sanitized(Seq::empty()) == "session"@,
{
    let f = |c: char| safe(c);
    lemma_second_dot_is_dropped(a.map_values(f), b.map_values(f));
    assert((a + seq!['.', '.'] + b).map_values(f) =~= a.map_values(f) + seq!['.', '.'] + b.map_values(f));
    assert((a + seq!['.'] + b).map_values(f) =~= a.map_values(f) + seq!['.'] + b.map_values(f));
    let none = Seq::<char>::empty();
    assert(none.map_values(f) =~= none);
}

/// What is hashed of a message list is the text of each message with a zero byte
/// behind it, in order, and nothing else.
pub proof fn law_messages_are_framed_in_a_row(docs: Seq<JsonView>, doc: JsonView)
    ensures
        framed(docs.push(doc)) == framed(docs) + json::json_text(doc) + seq![0u8],
        framed(Seq::empty()) == Seq::<u8>::empty(),
{
    assert(docs.push(doc).drop_last() =~= docs);
}

/// A request's messages are the elements of the array under `messages`; anything
/// else there counts for none.
pub proof fn law_messages_are_the_array(body: JsonView)
    ensures
        body matches JsonView::Object(m) ==> (m.contains_key("messages"@) ==> (m["messages"@] matches JsonView::Array(list)
            ==> messages_of(body) == list)),
        !(body matches JsonView::Object(m) && m.contains_key("messages"@) && m["messages"@] is Array) ==> messages_of(body)
            == Seq::<JsonView>::empty(),
{
}

/// A session's key: `hdr-` and the header's text made safe if the header is there
/// and not empty; else `conv-` and the first sixteen hexadecimal digits of the
/// digest of the framed messages.
pub proof fn law_session_key_has_its_two_forms(name: Seq<char>, header: Option<Seq<char>>, body: JsonView)
    requires
        header is None || header == Some(Seq::<char>::empty()),
        digest::sha256(framed(messages_of(body))).len() >= 8,
    ensures
        name.len() > 0 ==> session_key_text(Some(name), body) == "hdr-"@ + sanitized(name),
        session_key_text(header, body).len() == 21,
        session_key_text(header, body).take(5) == "conv-"@,
        forall|i: int| #![trigger session_key_text(header, body)[5 + i]]
            0 <= i < 16 ==> session_key_text(header, body)[5 + i] == text::hex_text(
                digest::sha256(framed(messages_of(body))),
            )[i],
{
    reveal_strlit("conv-");
    let key = session_key_text(header, body);
    assert(key.take(5) =~= "conv-"@);
}

/// A signature is the first twelve hexadecimal digits of the fingerprint's
/// digest.
pub proof fn law_signature_is_the_head_of_the_digest(digest: Seq<u8>, i: int)
    requires
        digest.len() >= 6,
        0 <= i < 12,
    ensures
        signature_text(digest).len() == 12,
        signature_text(digest)[i] == text::hex_text(digest)[i],
{
}

/// Whether two backends say the same of a property: both lack it, or both have it
/// with the same whole text.
pub open spec fn say_the_same(p: JsonView, q: JsonView, key: Seq<char>) -> bool {
    match (json::member_view(p, key), json::member_view(q, key)) {
        (Some(x), Some(y)) => json::json_text(x) == json::json_text(y),
        (None, None) => true,
        _ => false,
    }
}

/// A fingerprint leaves nothing out: two backends share it if and only if they
/// say the same, in full, of the model, the slots, the context, the template, the
/// tokens that open a text, the types of the cache and the draft.
pub proof fn law_fingerprint_holds_every_property_in_full(p: JsonView, q: JsonView)
    ensures
        fingerprint(p) == fingerprint(q) <==> {
            &&& say_the_same(p, q, "model_path"@)
            &&& say_the_same(p, q, "total_slots"@)
            &&& say_the_same(p, q, "n_ctx"@)
            &&& say_the_same(p, q, "chat_template"@)
            &&& say_the_same(p, q, "add_bos_token"@)
            &&& say_the_same(p, q, "bos_token"@)
            &&& say_the_same(p, q, "cache_type_k"@)
            &&& say_the_same(p, q, "cache_type_v"@)
            &&& say_the_same(p, q, "type_k"@)
            &&& say_the_same(p, q, "type_v"@)
            &&& say_the_same(p, q, "draft"@)
            &&& say_the_same(p, q, "draft_model"@)
            &&& say_the_same(p, q, "spec_type"@)
            &&& say_the_same(p, q, "spec_draft_model"@)
        },
{
    law_fingerprint_tells_backends_apart(p, q);
    let keys = signature_keys_view();
    assert(keys[0] == "model_path"@ && keys[1] == "total_slots"@ && keys[2] == "n_ctx"@ && keys[3] == "chat_template"@);
    assert(keys[4] == "add_bos_token"@ && keys[5] == "bos_token"@ && keys[6] == "cache_type_k"@ && keys[7] == "cache_type_v"@);
    assert(keys[8] == "type_k"@ && keys[9] == "type_v"@ && keys[10] == "draft"@ && keys[11] == "draft_model"@);
    assert(keys[12] == "spec_type"@ && keys[13] == "spec_draft_model"@);
    assert(forall|k: Seq<char>| #[trigger] say_the_same(p, q, k) <==> property_text(p, k) == property_text(q, k));
}

/// Two backends that differ in the whole text of one property alone, however far
/// into it, have different fingerprints.
pub proof fn law_one_difference_is_enough(p: Map<Seq<char>, JsonView>, key: Seq<char>, x: JsonView, y: JsonView)
    requires
        key == "model_path"@ || key == "total_slots"@ || key == "n_ctx"@ || key == "chat_template"@ || key
            == "add_bos_token"@ || key == "bos_token"@ || key == "cache_type_k"@ || key == "cache_type_v"@ || key
            == "type_k"@ || key == "type_v"@ || key == "draft"@ || key == "draft_model"@ || key == "spec_type"@ || key
            == "spec_draft_model"@,
        json::json_text(x) != json::json_text(y),
    ensures
        fingerprint(JsonView::Object(p.insert(key, x))) != fingerprint(JsonView::Object(p.insert(key, y))),
        fingerprint(JsonView::Object(p.insert(key, x))) != fingerprint(JsonView::Object(p.remove(key))),
{
    let (a, b, c) = (
        JsonView::Object(p.insert(key, x)),
        JsonView::Object(p.insert(key, y)),
        JsonView::Object(p.remove(key)),
    );
    law_fingerprint_holds_every_property_in_full(a, b);
    law_fingerprint_holds_every_property_in_full(a, c);
    assert(!say_the_same(a, b, key));
    assert(!say_the_same(a, c, key));
}

/// The names of files: a blob's is its session's key, two underscores, the
/// signature and `.bin`; its scratch file has `.save` behind that.
pub proof fn law_names_are_made_of_their_parts(session: Seq<char>, sig: Seq<char>)
    ensures
        ({
            let n = blob_name_text(session, sig);
            let a = session.len() as int;
            &&& n.len() == a + sig.len() + 6
            &&& n.take(a) == session
            &&& n[a] == '_' && n[a + 1] == '_'
            &&& n.subrange(a + 2, n.len() - 4) == sig
            &&& n.skip(n.len() - 4) == seq!['.', 'b', 'i', 'n']
            &&& scratch_name_text(n).len() == n.len() + 5
            &&& scratch_name_text(n).take(n.len() as int) == n
            &&& scratch_name_text(n).skip(n.len() as int) == seq!['.', 's', 'a', 'v', 'e']
        }),
{
    reveal_strlit("__");
    reveal_strlit(".bin");
    reveal_strlit(".save");
    let n = blob_name_text(session, sig);
    let a = session.len() as int;
    assert(n.take(a) =~= session);
    assert(n.subrange(a + 2, n.len() - 4) =~= sig);
    assert(n.skip(n.len() - 4) =~= seq!['.', 'b', 'i', 'n']);
    assert(scratch_name_text(n).take(n.len() as int) =~= n);
    assert(scratch_name_text(n).skip(n.len() as int) =~= seq!['.', 's', 'a', 'v', 'e']);
}

} // verus!
