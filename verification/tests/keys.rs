//! Names: session keys, blob names, signatures.

use axum::http::{HeaderMap, HeaderValue};
use ollm::header::{is_hop_by_hop, to_backend, to_client};
use ollm::keys::{
    backend_signature, blob_name, conversation_key, delimit, frame, header_key, hex16, scratch_name,
    signature,
};
use ollm::text::{decimal_text, hex, join_path, parent_of};
use ollm::{sanitize, session_key};
use serde_json::Value;

fn object(members: Vec<(&str, Value)>) -> Value {
    let mut m = serde_json::Map::new();
    for (k, v) in members {
        m.insert(k.to_string(), v);
    }
    Value::Object(m)
}

fn text(s: &str) -> Value {
    Value::String(s.to_string())
}

#[test]
fn sanitize_maps_collapses_and_clips() {
    assert_eq!(sanitize("abc-DEF_0.9"), "abc-DEF_0.9");
    assert_eq!(sanitize("a/b c\u{e9}"), "a-b-c-");
    assert_eq!(sanitize("../../etc"), ".-.-etc");
    assert_eq!(sanitize("a....b"), "a.b");
    assert_eq!(sanitize("."), ".");
    assert_eq!(sanitize(""), "session");
    assert_eq!(sanitize(&"x".repeat(200)), "x".repeat(96));
    assert_eq!(sanitize(&"..".repeat(200)), ".");
    let clipped = sanitize(&format!("{}..z", "y".repeat(95)));
    assert_eq!(clipped, format!("{}.", "y".repeat(95)));
}

#[test]
fn sanitize_is_what_repeated_replacement_gives() {
    for s in ["", ".", "..", "...", "....", "a..b...c", "..a..", "/../", "x.....y..z."] {
        let mut out: String = s
            .chars()
            .map(|c| if c.is_ascii_alphanumeric() || matches!(c, '.' | '_' | '-') { c } else { '-' })
            .collect();
        while out.contains("..") {
            out = out.replace("..", ".");
        }
        out.truncate(96);
        if out.is_empty() {
            out = "session".into();
        }
        assert_eq!(sanitize(s), out);
    }
}

#[test]
fn sanitize_twice_changes_nothing() {
    for s in ["a//..b", "", "..", "\u{4e2d}\u{6587}", "plain"] {
        let once = sanitize(s);
        assert_eq!(sanitize(&once), once);
        assert!(!once.contains(".."));
        assert!(!once.contains('/'));
    }
}

#[test]
fn header_names_the_session() {
    let mut headers = HeaderMap::new();
    headers.insert("x-session-id", HeaderValue::from_static("my chat"));
    let body = object(vec![]);
    assert_eq!(session_key(&headers, &body, "x-session-id"), "hdr-my-chat");
    assert_eq!(session_key(&headers, &body, "X-Session-ID"), "hdr-my-chat");
    assert_eq!(header_key("my chat"), "hdr-my-chat");
    headers.append("x-session-id", HeaderValue::from_static("second"));
    assert_eq!(session_key(&headers, &body, "x-session-id"), "hdr-my-chat");
}

#[test]
fn messages_name_the_session_otherwise() {
    let headers = HeaderMap::new();
    let empty = object(vec![]);
    assert_eq!(session_key(&headers, &empty, "x-session-id"), "conv-e3b0c44298fc1c14");
    assert_eq!(session_key(&headers, &Value::Null, "x-session-id"), "conv-e3b0c44298fc1c14");
    let msg = object(vec![("role", text("user")), ("content", text("hi"))]);
    let body = object(vec![("messages", Value::Array(vec![msg])), ("model", text("m"))]);
    assert_eq!(session_key(&headers, &body, "x-session-id"), "conv-54d8cb7d818f09d1");

    let mut unreadable = HeaderMap::new();
    unreadable.insert("x-session-id", HeaderValue::from_bytes(&[0xff, 0xfe]).unwrap());
    assert_eq!(session_key(&unreadable, &body, "x-session-id"), "conv-54d8cb7d818f09d1");
    let mut blank = HeaderMap::new();
    blank.insert("x-session-id", HeaderValue::from_static(""));
    assert_eq!(session_key(&blank, &body, "x-session-id"), "conv-54d8cb7d818f09d1");
    assert_eq!(session_key(&blank, &body, "not a header name"), "conv-54d8cb7d818f09d1");
}

#[test]
fn digests_are_shortened() {
    let d = [0x01u8, 0x23, 0x45, 0x67, 0x89, 0xab, 0xcd, 0xef, 0xff];
    assert_eq!(hex(&d), "0123456789abcdefff");
    assert_eq!(hex(&[]), "");
    assert_eq!(hex16(&d), "0123456789abcdef");
    assert_eq!(conversation_key(&d), "conv-0123456789abcdef");
    assert_eq!(signature(&d), "0123456789ab");
}

#[test]
fn blob_and_scratch_names() {
    assert_eq!(blob_name("hdr-a", "a67e59194299"), "hdr-a__a67e59194299.bin");
    assert_eq!(scratch_name("hdr-a__a67e59194299.bin"), "hdr-a__a67e59194299.bin.save");
    assert_ne!(blob_name("hdr-a", "a67e59194299"), blob_name("hdr-a", "b67e59194299"));
}

#[test]
fn signature_covers_the_layout_properties() {
    assert_eq!(backend_signature(None), "e3b0c44298fc");
    let props = object(vec![
        ("bos_token", text("<s>")),
        ("add_bos_token", Value::Bool(true)),
        ("chat_template", text("tpl")),
        ("n_ctx", Value::from(8192u64)),
        ("total_slots", Value::from(3u64)),
        ("model_path", text("m.gguf")),
        ("build_info", text("b1")),
    ]);
    assert_eq!(backend_signature(Some(&props)), "1a12459b2c92");
    let some = object(vec![("model_path", text("m")), ("n_ctx", Value::from(5u64))]);
    assert_eq!(backend_signature(Some(&some)), "57dac0331215");
}

#[test]
fn signature_tells_backends_apart() {
    let one = object(vec![("total_slots", Value::from(1u64)), ("n_ctx", Value::from(23u64))]);
    let two = object(vec![("total_slots", Value::from(12u64)), ("n_ctx", Value::from(3u64))]);
    assert_ne!(backend_signature(Some(&one)), backend_signature(Some(&two)));
    let bare = object(vec![]);
    assert_eq!(backend_signature(Some(&bare)), "e7ecebbc590b");
    assert_ne!(backend_signature(Some(&bare)), backend_signature(None));
    for key in ["cache_type_k", "cache_type_v", "type_k", "type_v", "draft", "draft_model", "spec_type", "spec_draft_model"] {
        let q8 = object(vec![("model_path", text("m")), (key, text("q8_0"))]);
        let f16 = object(vec![("model_path", text("m")), (key, text("f16"))]);
        let none = object(vec![("model_path", text("m"))]);
        assert_ne!(backend_signature(Some(&q8)), backend_signature(Some(&f16)), "{key}");
        assert_ne!(backend_signature(Some(&q8)), backend_signature(Some(&none)), "{key}");
    }
    let long = object(vec![("chat_template", text(&"x".repeat(300)))]);
    assert_eq!(backend_signature(Some(&long)), "60321a0f5aba");
}

#[test]
fn texts_are_delimited() {
    let mut data = Vec::new();
    delimit(&mut data, None);
    delimit(&mut data, Some(b"ab".to_vec()));
    delimit(&mut data, Some(Vec::new()));
    assert_eq!(data, vec![0, 1, 2, b'a', b'b', 1, 0]);
    let mut long = Vec::new();
    delimit(&mut long, Some(vec![7; 300]));
    assert_eq!(long[..3], [1, 128 + 44, 2]);
    assert_eq!(long.len(), 303);
}

#[test]
fn other_messages_are_another_session() {
    let headers = HeaderMap::new();
    let key = |messages: Vec<Value>| {
        let body = object(vec![("messages", Value::Array(messages))]);
        session_key(&headers, &body, "x-session-id")
    };
    let (a, b) = (text("a"), text("b"));
    let both = key(vec![a.clone(), b.clone()]);
    assert_ne!(both, key(vec![b.clone(), a.clone()]));
    assert_ne!(both, key(vec![a.clone()]));
    assert_ne!(both, key(vec![a.clone(), b.clone(), b.clone()]));
    assert_eq!(both, key(vec![a, b]));
    assert_eq!(both.len(), 21);
    assert!(both[5..].chars().all(|c| c.is_ascii_digit() || ('a'..='f').contains(&c)));
}

#[test]
fn headers_are_handed_on() {
    assert!(to_backend("content-type", true));
    assert!(to_backend("authorization", false));
    assert!(!to_backend("authorization", true));
    assert!(!to_backend("host", false));
    assert!(!to_backend("content-length", false));
    assert!(!to_backend("transfer-encoding", false));
    assert!(to_client("content-length"));
    assert!(to_client("content-type"));
    for name in ["connection", "keep-alive", "proxy-authenticate", "proxy-authorization", "proxy-connection", "te", "trailer", "transfer-encoding", "upgrade"] {
        assert!(is_hop_by_hop(name));
        assert!(!to_client(name));
    }
}

#[test]
fn numerals_and_paths() {
    assert_eq!(decimal_text(0), "0");
    assert_eq!(decimal_text(10), "10");
    assert_eq!(decimal_text(u64::MAX), "18446744073709551615");
    assert_eq!(join_path("/var/cache", "a.bin"), "/var/cache/a.bin");
    assert_eq!(join_path("/var/cache/", "a.bin"), "/var/cache/a.bin");
    assert_eq!(join_path("", "a.bin"), "a.bin");
    assert_eq!(join_path("/var", "/etc"), "/etc");
}

#[test]
fn documents_are_framed_by_a_zero_byte() {
    let mut data = vec![9];
    frame(&mut data, b"{}".to_vec());
    frame(&mut data, Vec::new());
    assert_eq!(data, vec![9, b'{', b'}', 0, 0]);
}

#[test]
fn blob_names_tell_sessions_and_backends_apart() {
    let name = blob_name("hdr-a", "0123456789ab");
    assert_eq!(name, blob_name("hdr-a", "0123456789ab"));
    assert_ne!(name, blob_name("hdr-a", "0123456789ac"));
    assert_ne!(name, blob_name("hdr-b", "0123456789ab"));
}

#[test]
fn parents_are_those_of_the_standard_library() {
    let pieces = ["", "/", ".", "..", "a", "b.bin", "//", "/.", "./", ".a", "a.", "..."];
    for x in pieces {
        for y in pieces {
            for z in pieces {
                for w in pieces {
                    let path = format!("{x}{y}{z}{w}");
                    let parent = std::path::Path::new(&path).parent().map(|p| p.to_str().unwrap().to_string());
                    assert_eq!(parent_of(&path), parent, "{path:?}");
                }
            }
        }
    }
}
