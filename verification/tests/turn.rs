//! One turn, from the request to what is saved.

use axum::http::{HeaderMap, HeaderValue};
use ollm::config::{Config, Vars};
use ollm::publish::{SaveAction, SaveStage};
use ollm::registry::SlotRegistry;
use ollm::turn::{
    abandon, error_reply, health_report, plan_relay, refusal, relay_body, relay_status, settle,
    slot_to_save, Collector, Pump, PumpEvent, Relay, RelayBody, Turn,
};
use ollm::Bytes;
use serde_json::Value;

fn parse(s: &str) -> Value {
    serde_json::from_str(s).unwrap()
}

fn open(body: &str) -> Result<Turn, ollm::turn::ErrorReply> {
    let mut headers = HeaderMap::new();
    headers.insert("x-session-id", HeaderValue::from_static("s1"));
    Turn::open(&Bytes(body.as_bytes().to_vec()), &headers, "x-session-id")
}

#[test]
fn a_request_is_read() {
    let t = open(r#"{"messages":[],"stream":true}"#).ok().unwrap();
    assert_eq!(t.session, "hdr-s1");
    assert!(t.stream);
    assert_eq!(t.body, parse(r#"{"messages":[],"stream":true}"#));
    assert!(!open(r#"{"stream":"yes"}"#).ok().unwrap().stream);
    assert!(!open(r#"{"stream":false}"#).ok().unwrap().stream);
    assert!(!open("[]").ok().unwrap().stream);
}

#[test]
fn a_body_that_is_no_json_is_a_bad_request() {
    let e = open("{").err().unwrap();
    assert_eq!(e.status, 400);
    let cause = serde_json::from_str::<Value>("{").unwrap_err().to_string();
    let message = e.body.get("error").unwrap().get("message").unwrap();
    assert_eq!(message.as_str().unwrap(), format!("invalid json: {cause}"));
}

#[test]
fn a_steered_request_names_its_slot() {
    let t = open(r#"{"messages":[1.5],"id_slot":9}"#).ok().unwrap();
    assert_eq!(t.forward_body(Some(2)), parse(r#"{"messages":[1.5],"id_slot":2}"#));
    assert_eq!(t.forward_body(None), parse(r#"{"messages":[1.5],"id_slot":9}"#));
    let t = open("[1]").ok().unwrap();
    assert_eq!(t.forward_body(Some(2)), parse("[1]"));
}

#[test]
fn errors_are_documents() {
    let e = error_reply(502, "no route");
    assert_eq!(e.status, 502);
    assert_eq!(e.body, parse(r#"{"error":{"message":"no route"}}"#));
    let e = refusal(503, b"loading");
    assert_eq!(e.status, 503);
    assert_eq!(e.body, parse(r#"{"error":{"message":"loading"}}"#));
    let e = refusal(500, &[b'a', 0xff]);
    assert_eq!(e.body, parse("{\"error\":{\"message\":\"a\u{fffd}\"}}"));
}

#[test]
fn answers_are_relayed_by_status() {
    assert_eq!(relay_status(200), 200);
    assert_eq!(relay_status(999), 999);
    assert_eq!(relay_status(1000), 502);
    assert_eq!(relay_status(99), 502);
    assert_eq!(plan_relay(200, true), Relay::Stream(200));
    assert_eq!(plan_relay(299, false), Relay::Whole(299));
    assert_eq!(plan_relay(300, true), Relay::Refused(300));
    assert_eq!(plan_relay(199, false), Relay::Refused(199));
    assert_eq!(plan_relay(0, false), Relay::Refused(502));
}

#[test]
fn bodies_are_collected() {
    let mut c = Collector::new(true);
    c.take(Some(vec![1, 2]));
    c.take(Some(vec![3]));
    c.take(None);
    c.take(Some(vec![4]));
    assert!(c.ended);
    assert_eq!(c.bytes, vec![1, 2, 3]);
    let mut c = Collector::new(false);
    c.take(Some(vec![1]));
    c.take(None);
    c.take(Some(vec![4]));
    assert!(!c.ended);
    assert_eq!(c.bytes, vec![1, 4]);
}

#[test]
fn a_client_that_hangs_up_does_not_stop_the_save() {
    let mut p = Pump::new();
    p.step(PumpEvent::Chunk(true));
    assert_eq!(slot_to_save(Relay::Stream(200), &p, Some(1)), None);
    p.step(PumpEvent::Chunk(false));
    p.step(PumpEvent::Chunk(false));
    p.step(PumpEvent::Ended);
    assert!(p.disconnected);
    assert_eq!(slot_to_save(Relay::Stream(200), &p, Some(1)), Some(1));
    assert_eq!(slot_to_save(Relay::Stream(200), &p, None), None);
}

#[test]
fn failed_and_refused_turns_are_not_saved() {
    let mut p = Pump::new();
    p.step(PumpEvent::Chunk(true));
    p.step(PumpEvent::Failed);
    p.step(PumpEvent::Ended);
    assert!(p.failed);
    assert_eq!(slot_to_save(Relay::Stream(200), &p, Some(1)), None);
    assert_eq!(slot_to_save(Relay::Refused(500), &Pump::new(), Some(1)), None);
    assert_eq!(slot_to_save(Relay::Whole(200), &Pump::new(), Some(1)), Some(1));
}

#[test]
fn a_finished_turn_is_saved_under_its_session() {
    let mut reg = SlotRegistry::new();
    reg.mark_dirty(5, "hdr-a");
    let mut save = settle(Some(5), "hdr-a", "sig", &mut reg).unwrap();
    assert!(matches!(save.action(), SaveAction::SaveSlot(5, f) if f == "hdr-a__sig.bin.save"));
    for _ in 0..3 {
        save.resume(true, &mut reg);
    }
    assert_eq!(save.stage, SaveStage::Done);
    assert!(!reg.slot(5).unwrap().dirty);
    assert_eq!(reg.hot_slot("hdr-a"), Some(5));
    assert!(settle(None, "hdr-a", "sig", &mut reg).is_none());
}

#[test]
fn a_slot_that_changed_hands_is_not_saved() {
    let mut reg = SlotRegistry::new();
    reg.reserve(5, "hdr-b");
    assert!(settle(Some(5), "hdr-a", "sig", &mut reg).is_none());
    abandon(Some(5), "hdr-a", &mut reg);
    let s = reg.slot(5).unwrap();
    assert_eq!(s.session, Some("hdr-b".to_string()));
    assert!(s.dirty);
    assert_eq!(s.turns, 1);
    assert!(settle(Some(6), "hdr-a", "sig", &mut reg).is_none());
    assert!(reg.slot(6).is_none());
}

#[test]
fn an_abandoned_turn_leaves_its_slot_dirty() {
    let mut reg = SlotRegistry::new();
    reg.reserve(5, "hdr-a");
    abandon(Some(5), "hdr-a", &mut reg);
    abandon(None, "hdr-a", &mut reg);
    let s = reg.slot(5).unwrap();
    assert!(s.dirty);
    assert_eq!(s.turns, 0);
}

#[test]
fn a_save_leaves_a_slot_dirty_that_is_in_use_again() {
    let mut reg = SlotRegistry::new();
    reg.reserve(5, "hdr-a");
    reg.reserve(5, "hdr-a");
    let mut save = settle(Some(5), "hdr-a", "sig", &mut reg).unwrap();
    for _ in 0..3 {
        save.resume(true, &mut reg);
    }
    assert_eq!(save.stage, SaveStage::Done);
    assert!(reg.slot(5).unwrap().dirty);
    let mut save = settle(Some(5), "hdr-a", "sig", &mut reg).unwrap();
    for _ in 0..3 {
        save.resume(true, &mut reg);
    }
    assert!(!reg.slot(5).unwrap().dirty);
}

#[test]
fn passed_through_bodies() {
    assert!(matches!(relay_body(Ok(vec![1])), RelayBody::Send(b) if b == vec![1]));
    assert!(matches!(relay_body(Ok(vec![])), RelayBody::Nothing));
    let long = vec![7u8; 16 * 1024 * 1024 + 1];
    assert!(matches!(relay_body(Ok(long.clone())), RelayBody::Send(b) if b == long));
    assert!(matches!(relay_body(Err("cut".to_string())), RelayBody::Refuse(e)
        if e.status == 400 && e.body == parse(r#"{"error":{"message":"cut"}}"#)));
}

#[test]
fn health_tells_the_cache_and_the_backend() {
    let config = Config::from_vars(&Vars {
        home: None,
        backend_url: None,
        bind: None,
        cache_dir: Some("/c".to_string()),
        cache_limit_mb: Some("7".to_string()),
        backend_api_key: None,
        session_header: None,
    });
    assert_eq!(
        health_report(&config, "a67e59194299", 3),
        parse(
            r#"{"status":"ok","backend":"http://127.0.0.1:1245","backend_sig":"a67e59194299",
                "cache_dir":"/c","cache_mb":3,"cache_limit_mb":7}"#
        )
    );
}
