//! What is asked of the backend, and how its answers are read.

use ollm::backend::{
    decode_slots, filename_body, prefill_body, slot_state, unparsed_body, url, Operation, SlotState,
};
use serde_json::Value;

fn parse(s: &str) -> Value {
    serde_json::from_str(s).unwrap()
}

#[test]
fn slots_are_read_from_the_report() {
    let report = parse(
        r#"[{"id":0,"is_processing":false,"n_prompt_tokens":59,"n_tokens":7},
            {"id":1},
            {"is_processing":false},
            {"id":-1},
            {"id":2.0},
            {"id":"3"},
            {"id":4294967298,"is_processing":"no","n_prompt_tokens":-3},
            null]"#,
    );
    assert_eq!(
        decode_slots(&report),
        Ok(vec![
            SlotState { id: 0, is_processing: false, n_tokens: 59 },
            SlotState { id: 1, is_processing: true, n_tokens: 0 },
            SlotState { id: 2, is_processing: true, n_tokens: 0 },
        ])
    );
    assert_eq!(decode_slots(&parse("[]")), Ok(vec![]));
    assert_eq!(decode_slots(&parse(r#"{"error":1}"#)), Err("GET /slots: not an array".to_string()));
}

#[test]
fn one_slot_from_its_fields() {
    assert_eq!(slot_state(None, Some(false), Some(1)), None);
    assert_eq!(
        slot_state(Some(7), Some(false), Some(1)),
        Some(SlotState { id: 7, is_processing: false, n_tokens: 1 })
    );
    assert_eq!(
        slot_state(Some(7), None, None),
        Some(SlotState { id: 7, is_processing: true, n_tokens: 0 })
    );
}

#[test]
fn bodies_are_built() {
    let messages = parse(r#"[{"role":"system","content":"s"}]"#);
    assert_eq!(
        prefill_body(3, &messages),
        parse(r#"{"messages":[{"role":"system","content":"s"}],"stream":false,"id_slot":3,"max_tokens":0}"#)
    );
    assert_eq!(filename_body("a.bin.save"), parse(r#"{"filename":"a.bin.save"}"#));
    assert_eq!(unparsed_body("eof"), parse(r#"{"unparsed":"eof"}"#));
}

#[test]
fn paths_are_built() {
    assert_eq!(Operation::Save.path(12), "/slots/12?action=save");
    assert_eq!(Operation::Restore.path(0), "/slots/0?action=restore");
    assert_eq!(Operation::Prefill.path(5), "/v1/chat/completions");
    assert_eq!(url("http://127.0.0.1:1245", "/props"), "http://127.0.0.1:1245/props");
}

#[test]
fn answers_are_judged_by_their_status() {
    let v = parse(r#"{"b":[1,2.5,"x"],"a":null}"#);
    assert_eq!(Operation::Save.judge(200, v.clone()), Ok(v.clone()));
    assert_eq!(Operation::Save.judge(299, v.clone()), Ok(v.clone()));
    assert_eq!(
        Operation::Save.judge(300, v.clone()),
        Err(r#"save: 300: {"a":null,"b":[1,2.5,"x"]}"#.to_string())
    );
    assert_eq!(Operation::Save.refusal(300, "x"), "save: 300: x");
    assert_eq!(
        Operation::Restore.judge(404, Value::Null),
        Err("restore: 404: null".to_string())
    );
    assert_eq!(
        Operation::Prefill.judge(500, Value::String("\u{e9}".to_string())),
        Err("prefill_only: 500: \"\u{e9}\"".to_string())
    );
}
