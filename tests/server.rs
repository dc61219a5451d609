use ipa_navigator_kokoro::server::{parse_port, Config, Error, HealthResponse};

#[test]
fn config_from_settings() {
    let c = Config::from_settings(None, None);
    assert_eq!(c.port, 3002);
    assert_eq!(c.host, "0.0.0.0");
    let c = Config::from_settings(Some("8080".to_string()), Some("127.0.0.1".to_string()));
    assert_eq!(c.port, 8080);
    assert_eq!(c.host, "127.0.0.1");
    let c = Config::from_settings(Some("http".to_string()), None);
    assert_eq!(c.port, 3002);
}

#[test]
fn ports_parse_as_u16_does() {
    for s in ["0", "80", "+443", "65535", "00012", "", "+", "-1", "65536", "99999999", "1a", " 1"] {
        assert_eq!(parse_port(s), s.parse::<u16>().ok(), "{:?}", s);
    }
}

#[test]
fn http_errors_map_to_status_codes() {
    assert_eq!(Error::NotFound("x".to_string()).status_code(), 404);
    assert_eq!(Error::BadRequest("x".to_string()).status_code(), 400);
    assert_eq!(Error::InternalServerError("x".to_string()).status_code(), 500);
    assert_eq!(Error::BadRequest("bad".to_string()).into_parts(), (400, "bad".to_string()));
    assert_eq!(Error::NotFound("p".to_string()).message(), "Not found: p");
    assert_eq!(HealthResponse::ok().status, "ok");
}
