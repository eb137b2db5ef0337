use keel::wire::{error_response, ErrorBody};

fn error_in(body: &[u8]) -> String {
    let parsed: serde_yaml::Value = serde_yaml::from_str(std::str::from_utf8(body).unwrap()).unwrap();
    parsed.get("error").unwrap().as_str().unwrap().to_string()
}

#[test]
fn error_response_carries_the_status_and_yaml_encodes_the_message() {
    let (status, body) = error_response(404, "jail 'web-1' not found".to_string());
    assert_eq!(status, 404);
    assert_eq!(error_in(&body), "jail 'web-1' not found");
}

#[test]
fn awkward_messages_survive_their_encoding() {
    for message in ["", "true", "12", "a: b\n- c", "# no comment", "\u{e9}\t\"quoted\"", "!tag"] {
        let (_, body) = error_response(500, message.to_string());
        assert_eq!(error_in(&body), message);
        assert_eq!(ErrorBody { error: message.to_string() }.to_yaml(), body);
    }
    assert_eq!(error_response(500, "ok".to_string()).1, b"error: ok\n");
}
