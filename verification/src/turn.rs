//! One turn: reading the request, forwarding it, relaying the answer, and what
//! has to be saved afterwards.

use crate::config::Config;
use crate::header;
use crate::json;
use crate::json::JsonView;
use crate::backend;
use crate::keys;
use crate::publish::SlotSave;
use crate::registry;
use crate::registry::SlotRegistry;
use crate::text;
use axum::http::HeaderMap;
use axum::http::HeaderValue;
use serde_json::Value;
use vstd::prelude::*;

verus! {

/// The largest request body of a turn, in bytes.
pub const MAX_TURN_BODY: usize = 134_217_728;

pub const BAD_REQUEST: u16 = 400;

pub const PAYLOAD_TOO_LARGE: u16 = 413;

pub const BAD_GATEWAY: u16 = 502;

/// A request body as it came.
pub struct Bytes(pub Vec<u8>);

/// What `String::from_utf8_lossy` makes of a byte string.
pub uninterp spec fn utf8_lossy(bytes: Seq<u8>) -> Seq<char>;

/// `String::from_utf8_lossy`: valid UTF-8 is read as it is, and what is invalid
/// is replaced. Trusted: the text depends on the bytes alone.
#[verifier::external_body]
fn from_utf8_lossy(bytes: &[u8]) -> (r: String)
    ensures
        r@ == utf8_lossy(bytes@),
        vstd::utf8::valid_utf8(bytes@) ==> r@ == vstd::utf8::decode_utf8(bytes@),
{
    String::from_utf8_lossy(bytes).into_owned()
}

/// An error that the client is answered.
pub struct ErrorReply {
    pub status: u16,
    pub body: Value,
}

/// The document of an error answer.
pub open spec fn error_view(message: Seq<char>) -> JsonView {
    JsonView::Object(
        Map::empty().insert(
            "error"@,
            JsonView::Object(Map::empty().insert("message"@, JsonView::Text(message))),
        ),
    )
}

/// The answer to a failed request.
pub fn error_reply(status: u16, message: &str) -> (r: ErrorReply)
    ensures
        r.status == status,
        json::json_view(r.body) == error_view(message@),
{
    let mut inner = json::empty_object();
    json::set_member(&mut inner, "message", json::of_text(message));
    let mut body = json::empty_object();
    json::set_member(&mut body, "error", inner);
    ErrorReply { status, body }
}

/// The answer when the backend refused: its status, and its body as the message.
pub fn refusal(status: u16, body: &[u8]) -> (r: ErrorReply)
    ensures
        r.status == status,
        json::json_view(r.body) == error_view(utf8_lossy(body@)),
        vstd::utf8::valid_utf8(body@) ==> json::json_view(r.body) == error_view(vstd::utf8::decode_utf8(body@)),
{
    error_reply(status, from_utf8_lossy(body).as_str())
}

/// Whether a request asks for a streamed answer.
pub open spec fn wants_stream(body: JsonView) -> bool {
    backend::bool_member(body, "stream"@) == Some(true)
}

/// A request that was read.
pub struct Turn {
    pub body: Value,
    pub session: String,
    pub stream: bool,
}

impl Turn {
    /// Read a request: what it holds, whose session it is, and whether it asks
    /// for a stream. A body that is no JSON is a bad request.
    pub fn open(raw: &Bytes, headers: &HeaderMap<HeaderValue>, header_name: &str) -> (r: Result<Self, ErrorReply>)
        ensures
            match (r, json::parsed_json(raw.0@)) {
                (Ok(t), Ok(v)) => {
                    &&& json::json_view(t.body) == v
                    &&& t.session@ == keys::session_key_text(
                        header::header_text(header::header_values(*headers), header_name@),
                        v,
                    )
                    &&& t.stream == wants_stream(v)
                },
                (Err(e), Err(cause)) => {
                    &&& e.status == BAD_REQUEST
                    &&& json::json_view(e.body) == error_view("invalid json: "@ + cause)
                },
                _ => false,
            },
    {
        match json::parse(raw.0.as_slice()) {
            Ok(body) => Ok(Turn::of(body, headers, header_name)),
            Err(cause) => Err(error_reply(BAD_REQUEST, text::join2("invalid json: ", cause.as_str()).as_str())),
        }
    }

    /// The turn of a request that was parsed.
    pub fn of(body: Value, headers: &HeaderMap<HeaderValue>, header_name: &str) -> (t: Self)
        ensures
            json::json_view(t.body) == json::json_view(body),
            t.session@ == keys::session_key_text(
                header::header_text(header::header_values(*headers), header_name@),
                json::json_view(body),
            ),
            t.stream == wants_stream(json::json_view(body)),
    {
        let session = keys::session_key(headers, &body, header_name);
        let stream = match backend::get_bool(&body, "stream") {
            Some(b) => b,
            None => false,
        };
        Turn { body, session, stream }
    }

    /// What is forwarded of a request, steered or not.
    pub open spec fn forwarded(body: JsonView, steer: Option<u32>) -> JsonView {
        match steer {
            Some(id) => json::with_member(body, "id_slot"@, JsonView::Uint(id as u64)),
            None => body,
        }
    }

    /// The request as it is forwarded: the client's, and where it is steered, the
    /// slot to run on.
    pub fn forward_body(&self, steer: Option<u32>) -> (body: Value)
        ensures
            json::json_view(body) == (match steer {
                Some(id) => json::with_member(json::json_view(self.body), "id_slot"@, JsonView::Uint(id as u64)),
                None => json::json_view(self.body),
            }),
            json::json_view(body) == Turn::forwarded(json::json_view(self.body), steer),
    {
        let mut body = self.body.clone();
        if let Some(id) = steer {
            json::set_member(&mut body, "id_slot", json::of_u64(id as u64));
        }
        body
    }
}

/// The status that is relayed for a backend's: itself if it is a status, else
/// bad gateway.
pub open spec fn relayed_status(code: u16) -> u16 {
    if 100 <= code < 1000 {
        code
    } else {
        BAD_GATEWAY
    }
}

/// The status that is relayed for a backend's.
pub fn relay_status(code: u16) -> (status: u16)
    ensures
        status == relayed_status(code),
{
    if 100 <= code && code < 1000 {
        code
    } else {
        BAD_GATEWAY
    }
}

/// How the backend's answer is handed on.
#[derive(Debug, Clone, Copy, PartialEq, Eq, Structural)]
pub enum Relay {
    /// It refused: its body becomes an error of that status, and nothing is
    /// saved.
    Refused(u16),
    /// Chunk by chunk, with that status.
    Stream(u16),
    /// As a whole, with that status.
    Whole(u16),
}

/// How the backend's answer is to be handed on.
pub open spec fn relay_plan(code: u16, stream: bool) -> Relay {
    let status = relayed_status(code);
    if 200 <= status < 300 {
        if stream {
            Relay::Stream(status)
        } else {
            Relay::Whole(status)
        }
    } else {
        Relay::Refused(status)
    }
}

/// Decide how the backend's answer is handed on.
pub fn plan_relay(code: u16, stream: bool) -> (r: Relay)
    ensures
        r == (if 200 <= relayed_status(code) < 300 {
            if stream {
                Relay::Stream(relayed_status(code))
            } else {
                Relay::Whole(relayed_status(code))
            }
        } else {
            Relay::Refused(relayed_status(code))
        }),
        r == relay_plan(code, stream),
{
    let status: u16 = relay_status(code);
    if 200 <= status && status < 300 {
        if stream {
            Relay::Stream(status)
        } else {
            Relay::Whole(status)
        }
    } else {
        Relay::Refused(status)
    }
}

/// A body that is collected chunk by chunk.
pub struct Collector {
    pub bytes: Vec<u8>,
    /// Whether a chunk that failed ends the body.
    pub strict: bool,
    pub ended: bool,
}

/// The bytes that are collected of a row of chunks, nothing standing for one that
/// failed; and whether a strict body has ended.
pub open spec fn collected(chunks: Seq<Option<Seq<u8>>>, strict: bool) -> (Seq<u8>, bool)
    decreases chunks.len(),
{
    if chunks.len() == 0 {
        (Seq::empty(), false)
    } else {
        let (bytes, ended) = collected(chunks.drop_last(), strict);
        match chunks.last() {
            Some(chunk) if !ended => (bytes + chunk, ended),
            None if strict => (bytes, true),
            _ => (bytes, ended),
        }
    }
}

/// A chunk as plain bytes.
pub open spec fn chunk_view(chunk: Option<Vec<u8>>) -> Option<Seq<u8>> {
    match chunk {
        Some(b) => Some(b@),
        None => None,
    }
}

impl Collector {
    /// Whether a row of chunks is what was collected so far.
    pub open spec fn has_taken(&self, chunks: Seq<Option<Seq<u8>>>) -> bool {
        (self.bytes@, self.ended) == collected(chunks, self.strict)
    }

    pub fn new(strict: bool) -> (c: Self)
        ensures
            c.bytes@ == Seq::<u8>::empty(),
            c.strict == strict,
            !c.ended,
            c.has_taken(Seq::empty()),
    {
        Collector { bytes: Vec::new(), strict, ended: false }
    }

    /// Take the next chunk, or note that it failed: a strict body ends there, any
    /// other goes on without it.
    pub fn take(&mut self, chunk: Option<Vec<u8>>)
        ensures
            final(self).strict == old(self).strict,
            final(self).bytes@ == (if old(self).ended || chunk is None {
                old(self).bytes@
            } else {
                old(self).bytes@ + chunk->0@
            }),
            final(self).ended == (old(self).ended || old(self).strict && chunk is None),
            forall|chunks: Seq<Option<Seq<u8>>>| #[trigger]
                old(self).has_taken(chunks) ==> final(self).has_taken(chunks.push(chunk_view(chunk))),
    {
        proof {
            assert(forall|chunks: Seq<Option<Seq<u8>>>| #[trigger]
                chunks.push(chunk_view(chunk)).drop_last() =~= chunks);
        }
        if !self.ended {
            match chunk {
                Some(mut b) => {
                    self.bytes.append(&mut b);
                },
                None => {
                    if self.strict {
                        self.ended = true;
                    }
                },
            }
        }
    }
}

/// What happened to a stream that is handed on.
#[derive(Debug, Clone, Copy, PartialEq, Eq, Structural)]
pub enum PumpEvent {
    /// A chunk came, and was delivered to the client or not.
    Chunk(bool),
    /// The backend's stream failed.
    Failed,
    /// The backend's stream ended.
    Ended,
}

/// A stream that is handed on. It is drained to its end even after the client
/// has gone: the backend keeps generating, and its state is worth saving.
#[derive(Debug, Clone, Copy, PartialEq, Eq, Structural)]
pub struct Pump {
    pub over: bool,
    pub failed: bool,
    pub disconnected: bool,
}

/// The pump after an event; nothing happens to one that is over.
pub open spec fn pumped(p: Pump, e: PumpEvent) -> Pump {
    if p.over {
        p
    } else {
        match e {
            PumpEvent::Chunk(delivered) => Pump { disconnected: p.disconnected || !delivered, ..p },
            PumpEvent::Failed => Pump { over: true, failed: true, ..p },
            PumpEvent::Ended => Pump { over: true, ..p },
        }
    }
}

impl Pump {
    /// A pump at the start of its stream.
    pub open spec fn start() -> Pump {
        Pump { over: false, failed: false, disconnected: false }
    }

    pub fn new() -> (p: Self)
        ensures
            p == Pump::start(),
    {
        Pump { over: false, failed: false, disconnected: false }
    }

    /// Note what happened.
    pub fn step(&mut self, e: PumpEvent)
        ensures
            *final(self) == pumped(*old(self), e),
    {
        if !self.over {
            match e {
                PumpEvent::Chunk(delivered) => {
                    self.disconnected = self.disconnected || !delivered;
                },
                PumpEvent::Failed => {
                    self.over = true;
                    self.failed = true;
                },
                PumpEvent::Ended => {
                    self.over = true;
                },
            }
        }
    }
}

/// The slot whose state is to be saved after a turn: none if the backend refused
/// or its stream failed or is not over, else the one that the turn was steered
/// to.
pub open spec fn saved_slot(relay: Relay, pump: Pump, steer: Option<u32>) -> Option<u32> {
    match relay {
        Relay::Refused(_) => None,
        Relay::Whole(_) => steer,
        Relay::Stream(_) => if pump.over && !pump.failed {
            steer
        } else {
            None
        },
    }
}

/// The slot whose state is to be saved after a turn. Of a body that is handed on
/// as a whole the pump says nothing.
pub fn slot_to_save(relay: Relay, pump: &Pump, steer: Option<u32>) -> (r: Option<u32>)
    ensures
        r == saved_slot(relay, *pump, steer),
{
    match relay {
        Relay::Refused(_) => None,
        Relay::Whole(_) => steer,
        Relay::Stream(_) => if pump.over && !pump.failed {
            steer
        } else {
            None
        },
    }
}

/// The slot whose state is saved for a turn that ended well.
pub open spec fn settled_slot(m: registry::Slots, steer: Option<u32>, session: Seq<char>) -> Option<u32> {
    match steer {
        Some(id) => if registry::owned_by(m, id, session) {
            Some(id)
        } else {
            None
        },
        None => None,
    }
}

/// A turn is over that ended well: begin to save its slot under its session's
/// name. Nothing is saved of a turn that was forwarded unsteered, nor of a slot
/// that is no longer the session's. To be called with the lock already held as
/// the save needs it.
pub fn settle(steer: Option<u32>, session: &str, sig: &str, registry: &mut SlotRegistry) -> (r: Option<SlotSave>)
    requires
        old(registry).wf(),
    ensures
        final(registry).wf(),
        match steer {
            Some(id) => final(registry)@ == registry::released(old(registry)@, id, session@),
            None => final(registry)@ == old(registry)@,
        },
        match r {
            Some(save) => {
                &&& steer == Some(save.slot)
                &&& registry::owned_by(old(registry)@, save.slot, session@)
                &&& save.session@ == session@
                &&& save.name@ == keys::blob_name_text(session@, sig@)
                &&& save.stage is Save
            },
            None => steer matches Some(id) ==> !registry::owned_by(old(registry)@, id, session@)
                && final(registry)@ == old(registry)@,
        },
        match r {
            Some(save) => settled_slot(old(registry)@, steer, session@) == Some(save.slot),
            None => settled_slot(old(registry)@, steer, session@) is None,
        },
{
    match steer {
        Some(id) => if registry.owns(id, session) {
            registry.release(id, session);
            Some(SlotSave::begin(id, session, sig))
        } else {
            None
        },
        None => None,
    }
}

/// A turn is over that is not saved: the backend refused, could not be reached,
/// or its stream failed. Its slot stays the session's, and dirty.
pub fn abandon(steer: Option<u32>, session: &str, registry: &mut SlotRegistry)
    requires
        old(registry).wf(),
    ensures
        final(registry).wf(),
        match steer {
            Some(id) => final(registry)@ == registry::released(old(registry)@, id, session@),
            None => final(registry)@ == old(registry)@,
        },
{
    if let Some(id) = steer {
        registry.release(id, session);
    }
}

/// What is sent on of the body of a request that is passed through.
pub enum RelayBody {
    /// These bytes, whole.
    Send(Vec<u8>),
    /// Nothing: the body is empty.
    Nothing,
    /// Nothing at all: the body could not be read, and the client is told so.
    Refuse(ErrorReply),
}

/// Decide what is sent on of a body that was read, or could not be. A body is
/// sent on whole, however long it is, and a request never goes on without the
/// body that it came with.
pub fn relay_body(raw: Result<Vec<u8>, String>) -> (body: RelayBody)
    ensures
        match raw {
            Ok(b) => if b@.len() > 0 {
                body == RelayBody::Send(b)
            } else {
                body is Nothing
            },
            Err(cause) => body matches RelayBody::Refuse(e) && e.status == BAD_REQUEST && json::json_view(e.body)
                == error_view(cause@),
        },
{
    match raw {
        Ok(b) => if b.len() > 0 {
            RelayBody::Send(b)
        } else {
            RelayBody::Nothing
        },
        Err(cause) => RelayBody::Refuse(error_reply(BAD_REQUEST, cause.as_str())),
    }
}

/// The document of a status report.
pub open spec fn health_view(
    backend: Seq<char>,
    sig: Seq<char>,
    cache_dir: Seq<char>,
    cache_mb: u64,
    cache_limit_mb: u64,
) -> JsonView {
    JsonView::Object(
        Map::empty()
            .insert("status"@, JsonView::Text("ok"@))
            .insert("backend"@, JsonView::Text(backend))
            .insert("backend_sig"@, JsonView::Text(sig))
            .insert("cache_dir"@, JsonView::Text(cache_dir))
            .insert("cache_mb"@, JsonView::Uint(cache_mb))
            .insert("cache_limit_mb"@, JsonView::Uint(cache_limit_mb)),
    )
}

/// The status report: the backend, its signature, and the cache's size and cap.
pub fn health_report(config: &Config, sig: &str, cache_mb: u64) -> (body: Value)
    ensures
        json::json_view(body) == health_view(
            config.backend@,
            sig@,
            config.cache_dir@,
            cache_mb,
            config.cache_limit_mb,
        ),
{
    let mut body = json::empty_object();
    json::set_member(&mut body, "status", json::of_text("ok"));
    json::set_member(&mut body, "backend", json::of_text(config.backend.as_str()));
    json::set_member(&mut body, "backend_sig", json::of_text(sig));
    json::set_member(&mut body, "cache_dir", json::of_text(config.cache_dir.as_str()));
    json::set_member(&mut body, "cache_mb", json::of_u64(cache_mb));
    json::set_member(&mut body, "cache_limit_mb", json::of_u64(config.cache_limit_mb));
    body
}

/// The pump after a row of events.
pub open spec fn pumped_all(p: Pump, events: Seq<PumpEvent>) -> Pump
    decreases events.len(),
{
    if events.len() == 0 {
        p
    } else {
        pumped(pumped_all(p, events.drop_last()), events.last())
    }
}

/// The same events, with the client there or gone at each chunk.
pub open spec fn same_stream(a: Seq<PumpEvent>, b: Seq<PumpEvent>) -> bool {
    &&& a.len() == b.len()
    &&& forall|i: int| 0 <= i < a.len() ==> (#[trigger] a[i] == b[i] || a[i] is Chunk && b[i] is Chunk)
}

/// A client that hangs up does not keep a turn from being saved: which slot is
/// saved does not depend on what was delivered.
pub proof fn law_disconnect_does_not_stop_the_save(
    relay: Relay,
    a: Seq<PumpEvent>,
    b: Seq<PumpEvent>,
    steer: Option<u32>,
)
    requires
        same_stream(a, b),
    ensures
        saved_slot(relay, pumped_all(Pump::start(), a), steer) == saved_slot(relay, pumped_all(Pump::start(), b), steer),
{
    lemma_delivery_is_irrelevant(a, b);
}

proof fn lemma_delivery_is_irrelevant(a: Seq<PumpEvent>, b: Seq<PumpEvent>)
    requires
        same_stream(a, b),
    ensures
        pumped_all(Pump::start(), a).over == pumped_all(Pump::start(), b).over,
        pumped_all(Pump::start(), a).failed == pumped_all(Pump::start(), b).failed,
    decreases a.len(),
{
    if a.len() > 0 {
        let n = a.len() - 1;
        assert(a[n] == b[n] || a[n] is Chunk && b[n] is Chunk);
        assert forall|i: int| 0 <= i < a.drop_last().len() implies (#[trigger] a.drop_last()[i] == b.drop_last()[i]
            || a.drop_last()[i] is Chunk && b.drop_last()[i] is Chunk) by {
            assert(a[i] == b[i] || a[i] is Chunk && b[i] is Chunk);
        }
        lemma_delivery_is_irrelevant(a.drop_last(), b.drop_last());
    }
}

/// A turn that was given a slot nobody used, ended, and was published leaves its
/// slot clean and the session's: the session's next turn goes straight back to
/// it, and anyone else may take it. Until then nobody else may.
pub proof fn law_published_turn_leaves_a_clean_slot(m: registry::Slots, id: u32, session: Seq<char>)
    requires
        !registry::in_use(m, id),
    ensures
        ({
            let steered = registry::reserved(m, id, session);
            let ended = registry::released(steered, id, session);
            let published = registry::published(ended, id, session);
            &&& registry::in_use(steered, id)
            &&& registry::is_dirty(steered, id)
            &&& registry::is_dirty(ended, id)
            &&& registry::owned_by(published, id, session)
            &&& registry::takeable(published, id)
        }),
{
}

/// A save of an earlier turn does not mark a slot clean on which the session's
/// next turn is on its way already.
pub proof fn law_slot_in_use_stays_dirty(m: registry::Slots, id: u32, session: Seq<char>)
    requires
        registry::in_use(m, id),
    ensures
        registry::published(m, id, session) == m,
{
}

/// A stream that failed is not saved, whatever came before.
pub proof fn law_failed_stream_is_not_saved(status: u16, events: Seq<PumpEvent>, steer: Option<u32>)
    requires
        !pumped_all(Pump::start(), events).over,
    ensures
        saved_slot(
            Relay::Stream(status),
            pumped_all(Pump::start(), events.push(PumpEvent::Failed)),
            steer,
        ) is None,
{
    assert(events.push(PumpEvent::Failed).drop_last() =~= events);
}

/// A request asks for a stream if and only if its member `stream` is true.
pub proof fn law_stream_is_asked_for_by_true(body: JsonView)
    ensures
        wants_stream(body) <==> (body matches JsonView::Object(m) && m.contains_key("stream"@) && m["stream"@]
            == JsonView::Bool(true)),
{
}

/// An error answer holds the message, whole, and nothing else.
pub proof fn law_error_holds_the_message(message: Seq<char>)
    ensures
        error_view(message) matches JsonView::Object(outer) && {
            &&& forall|k: Seq<char>| #[trigger] outer.contains_key(k) <==> k == "error"@
            &&& outer["error"@] matches JsonView::Object(inner) && {
                &&& forall|k: Seq<char>| #[trigger] inner.contains_key(k) <==> k == "message"@
                &&& inner["message"@] == JsonView::Text(message)
            }
        },
{
}

/// A status of three digits is relayed as it is, and anything else as a bad
/// gateway.
pub proof fn law_status_is_relayed_as_it_is(code: u16)
    ensures
        100 <= code <= 999 ==> relayed_status(code) == code,
        !(100 <= code <= 999) ==> relayed_status(code) == 502,
{
}

/// The largest request body of a turn is a hundred and twenty-eight mebibytes,
/// and errors have their usual status.
pub proof fn law_limits()
    ensures
        MAX_TURN_BODY == 128 * 1024 * 1024,
        BAD_REQUEST == 400,
        PAYLOAD_TOO_LARGE == 413,
        BAD_GATEWAY == 502,
{
}

proof fn lemma_chunks(chunks: Seq<PumpEvent>)
    requires
        forall|i: int| 0 <= i < chunks.len() ==> (#[trigger] chunks[i]) is Chunk,
    ensures
        ({
            let p = pumped_all(Pump::start(), chunks);
            &&& !p.over
            &&& !p.failed
            &&& p.disconnected <==> exists|i: int| 0 <= i < chunks.len() && #[trigger] chunks[i] == PumpEvent::Chunk(false)
        }),
    decreases chunks.len(),
{
    if chunks.len() > 0 {
        let head = chunks.drop_last();
        assert forall|i: int| 0 <= i < head.len() implies (#[trigger] head[i]) is Chunk by {
            assert(chunks[i] is Chunk);
        }
        lemma_chunks(head);
        let last = chunks[chunks.len() - 1];
        assert(last is Chunk);
        let p = pumped_all(Pump::start(), chunks);
        if pumped_all(Pump::start(), head).disconnected {
            let i = choose|i: int| 0 <= i < head.len() && #[trigger] head[i] == PumpEvent::Chunk(false);
            assert(chunks[i] == PumpEvent::Chunk(false));
        }
        if exists|i: int| 0 <= i < chunks.len() && #[trigger] chunks[i] == PumpEvent::Chunk(false) {
            let i = choose|i: int| 0 <= i < chunks.len() && #[trigger] chunks[i] == PumpEvent::Chunk(false);
            if i < head.len() {
                assert(head[i] == PumpEvent::Chunk(false));
            }
        }
    }
}

/// What becomes of a stream of chunks, delivered or not: while it runs nothing is
/// saved; once it has ended the slot of the turn is saved; if it fails nothing
/// is. The client counts as gone if and only if a chunk was not delivered.
pub proof fn law_stream_is_saved_once_it_has_ended(status: u16, chunks: Seq<PumpEvent>, steer: Option<u32>)
    requires
        forall|i: int| 0 <= i < chunks.len() ==> (#[trigger] chunks[i]) is Chunk,
    ensures
        saved_slot(Relay::Stream(status), pumped_all(Pump::start(), chunks), steer) is None,
        saved_slot(Relay::Stream(status), pumped_all(Pump::start(), chunks.push(PumpEvent::Ended)), steer) == steer,
        saved_slot(Relay::Stream(status), pumped_all(Pump::start(), chunks.push(PumpEvent::Failed)), steer) is None,
        !pumped_all(Pump::start(), chunks).over,
        pumped_all(Pump::start(), chunks.push(PumpEvent::Ended)).over,
        pumped_all(Pump::start(), chunks.push(PumpEvent::Failed)).over,
        pumped_all(Pump::start(), chunks.push(PumpEvent::Failed)).failed,
        pumped_all(Pump::start(), chunks).disconnected <==> exists|i: int|
            0 <= i < chunks.len() && #[trigger] chunks[i] == PumpEvent::Chunk(false),
{
    lemma_chunks(chunks);
    assert(chunks.push(PumpEvent::Ended).drop_last() =~= chunks);
    assert(chunks.push(PumpEvent::Failed).drop_last() =~= chunks);
}

/// A whole answer that was accepted is saved, and a refused one is not, whatever
/// a pump says.
pub proof fn law_accepted_turn_is_saved(status: u16, pump: Pump, steer: Option<u32>)
    ensures
        saved_slot(Relay::Whole(status), pump, steer) == steer,
        saved_slot(Relay::Refused(status), pump, steer) is None,
{
}

/// Nothing happens to a stream that is over.
pub proof fn law_nothing_follows_the_end(p: Pump, event: PumpEvent)
    requires
        p.over,
    ensures
        pumped(p, event) == p,
{
}

/// The status report tells the backend, its signature, and the cache's directory,
/// size and cap, under their names, and nothing else.
pub proof fn law_health_tells_all(backend: Seq<char>, sig: Seq<char>, dir: Seq<char>, mb: u64, limit: u64)
    ensures
        health_view(backend, sig, dir, mb, limit) matches JsonView::Object(m) && {
            &&& forall|k: Seq<char>| #[trigger] m.contains_key(k) <==> k == "status"@ || k == "backend"@ || k == "backend_sig"@
                || k == "cache_dir"@ || k == "cache_mb"@ || k == "cache_limit_mb"@
            &&& m["status"@] == JsonView::Text("ok"@)
            &&& m["backend"@] == JsonView::Text(backend)
            &&& m["backend_sig"@] == JsonView::Text(sig)
            &&& m["cache_dir"@] == JsonView::Text(dir)
            &&& m["cache_mb"@] == JsonView::Uint(mb)
            &&& m["cache_limit_mb"@] == JsonView::Uint(limit)
        },
{
    reveal_strlit("status");
    reveal_strlit("backend");
    reveal_strlit("backend_sig");
    reveal_strlit("cache_dir");
    reveal_strlit("cache_mb");
    reveal_strlit("cache_limit_mb");
    assert("status"@.len() == 6 && "backend"@.len() == 7 && "backend_sig"@.len() == 11 && "cache_dir"@.len() == 9);
    assert("cache_mb"@.len() == 8 && "cache_limit_mb"@.len() == 14);
}

/// What is relayed: an answer with a status from 200 to 299 is handed on with that
/// status, chunk by chunk if the client asked for a stream and whole if not; any
/// other is an error of that status, or a bad gateway if it is no status at all.
pub proof fn law_relay_follows_the_status(code: u16, stream: bool)
    ensures
        200 <= code <= 299 && stream ==> relay_plan(code, stream) == Relay::Stream(code),
        200 <= code <= 299 && !stream ==> relay_plan(code, stream) == Relay::Whole(code),
        100 <= code <= 199 || 300 <= code <= 999 ==> relay_plan(code, stream) == Relay::Refused(code),
        code <= 99 || code >= 1000 ==> relay_plan(code, stream) == Relay::Refused(502),
{
}

/// Steering changes one thing of a request: the slot to run on. Every other member
/// is the client's, and an unsteered request is as it came.
pub proof fn law_steering_changes_the_slot_alone(m: Map<Seq<char>, JsonView>, id: u32, other: Seq<char>, body: JsonView)
    ensures
        Turn::forwarded(JsonView::Object(m), Some(id)) matches JsonView::Object(f) && {
            &&& f.contains_key("id_slot"@) && f["id_slot"@] == JsonView::Uint(id as u64)
            &&& other != "id_slot"@ ==> f.contains_key(other) == m.contains_key(other) && (m.contains_key(other)
                ==> f[other] == m[other])
        },
        Turn::forwarded(body, None) == body,
        !(body is Object) ==> Turn::forwarded(body, Some(id)) == body,
{
}

/// A body is collected whole: of chunks that all came, what is collected is the
/// chunks in a row. After a failure a strict body takes no more, and any other
/// goes on as if the failed chunk had not been there.
pub proof fn law_body_is_collected_whole(chunks: Seq<Option<Seq<u8>>>, chunk: Seq<u8>, later: Option<Seq<u8>>, strict: bool)
    ensures
        !collected(chunks, strict).1 ==> collected(chunks.push(Some(chunk)), strict) == (collected(chunks, strict).0 + chunk, false),
        collected(chunks.push(None), strict).0 == collected(chunks, strict).0,
        collected(chunks.push(None), false) == collected(chunks, false),
        collected(chunks.push(None), true).1,
        collected(chunks.push(None).push(later), true) == collected(chunks.push(None), true),
        collected(Seq::empty(), strict) == (Seq::<u8>::empty(), false),
{
    assert(chunks.push(Some(chunk)).drop_last() =~= chunks);
    assert(chunks.push(None).drop_last() =~= chunks);
    assert(chunks.push(None).push(later).drop_last() =~= chunks.push(None));
    lemma_lenient_never_ends(chunks);
}

proof fn lemma_lenient_never_ends(chunks: Seq<Option<Seq<u8>>>)
    ensures
        !collected(chunks, false).1,
    decreases chunks.len(),
{
    if chunks.len() > 0 {
        lemma_lenient_never_ends(chunks.drop_last());
    }
}

/// What a finished turn saves: the slot that it was steered to if the slot is its
/// session's, and nothing if it is another's, unknown, or there was none.
pub proof fn law_finished_turn_saves_its_own_slot(m: registry::Slots, id: u32, session: Seq<char>)
    ensures
        settled_slot(m, Some(id), session) == (if m.contains_key(id) && m[id].session == Some(session) {
            Some(id)
        } else {
            None
        }),
        settled_slot(m, None, session) is None,
{
}

} // verus!
