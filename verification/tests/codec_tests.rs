use echo::action::{Action, ActionResult};
use echo::bridge::{handle_message, BridgeStep};
use echo::codec::{decode_request, encode_response};

fn read(key: &str) -> Action {
    Action::Read { key: key.to_string() }
}

fn key_of(a: &Action) -> &str {
    match a {
        Action::Read { key } => key.as_str(),
    }
}

#[test]
fn decode_simple_request() {
    let a = decode_request("{\"path\":\"/tmp/a.txt\"}").expect("well-formed request");
    assert_eq!(key_of(&a), "/tmp/a.txt");
}

#[test]
fn decode_empty_key() {
    let a = decode_request("{\"path\":\"\"}").expect("well-formed request");
    assert_eq!(key_of(&a), "");
}

#[test]
fn decode_escaped_key() {
    // Wire text: {"path":"a\"b\\c"}
    let a = decode_request("{\"path\":\"a\\\"b\\\\c\"}").expect("well-formed request");
    assert_eq!(key_of(&a), "a\"b\\c");
}

#[test]
fn decode_rejects_malformed() {
    assert!(decode_request("").is_none());
    assert!(decode_request("{\"path\":\"x\"").is_none());
    assert!(decode_request("[\"path\",\"x\"]").is_none());
    assert!(decode_request("{\"route\":\"x\"}").is_none());
    // Bare quote inside the value.
    assert!(decode_request("{\"path\":\"a\"b\"}").is_none());
    // Unknown escape.
    assert!(decode_request("{\"path\":\"a\\nb\"}").is_none());
    // Trailing backslash.
    assert!(decode_request("{\"path\":\"a\\\"}").is_none());
}

#[test]
fn encode_success_exact() {
    let res = ActionResult { action: read("/tmp/a.txt"), outcome: Ok("hello".to_string()) };
    assert_eq!(encode_response(&res).as_str(), "{\"path\":\"/tmp/a.txt\",\"content\":\"hello\"}");
}

#[test]
fn encode_failure_exact() {
    let res = ActionResult { action: read("/no/such/file"), outcome: Err("gone".to_string()) };
    assert_eq!(encode_response(&res).as_str(), "{\"path\":\"/no/such/file\",\"error\":\"gone\"}");
}

#[test]
fn encode_escapes_quotes_and_backslashes() {
    let res = ActionResult { action: read("a\"b\\c"), outcome: Ok("x\"y".to_string()) };
    assert_eq!(
        encode_response(&res).as_str(),
        "{\"path\":\"a\\\"b\\\\c\",\"content\":\"x\\\"y\"}"
    );
}

#[test]
fn encode_request_decodes_back() {
    // The request writer and reader agree on every key, escapes included.
    let keys = ["/tmp/a.txt", "", "a\"b\\c", "spaced key", "\\\\\""];
    for k in keys {
        let escaped: String = k.chars().flat_map(|c| {
            if c == '"' || c == '\\' { vec!['\\', c] } else { vec![c] }
        }).collect();
        let wire = format!("{{\"path\":\"{}\"}}", escaped);
        let a = decode_request(&wire).expect("round trip");
        assert_eq!(key_of(&a), k);
    }
}

#[test]
fn bridge_submits_well_formed_message() {
    match handle_message("{\"path\":\"/tmp/a.txt\"}") {
        BridgeStep::Submit(a) => assert_eq!(key_of(&a), "/tmp/a.txt"),
        BridgeStep::Reply(_) => panic!("expected a submission"),
    }
}

#[test]
fn bridge_answers_malformed_message_locally() {
    match handle_message("not a request") {
        BridgeStep::Submit(_) => panic!("expected a local reply"),
        BridgeStep::Reply(r) => {
            assert_eq!(r.as_str(), "{\"path\":\"\",\"error\":\"Cannot Decode.\"}");
        },
    }
}
