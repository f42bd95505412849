use hmac::Mac;
use modem_scraper::{hex_hmac_md5, SOAPClient};
use modem_scraper::client::{decode_reply, AuthState, LoginFailure, SignedRequest};
use modem_scraper::codec::channel_line::{Channel, Modulation};
use modem_scraper::codec::log_line::Level;
use modem_scraper::codec::timestamp::Timestamp;
use modem_scraper::error::{Error, ProtocolError};
use modem_scraper::json::{parse_json, Json};
use modem_scraper::payloads::s33::{
    ArrisRegisterInfoResponse, HasResult, LoginResponse, Reply, StatusConnectionInfoResponse,
    StatusLogResponse,
};
use modem_scraper::signature::sign;
use serde_json::Value;

const NOW: u128 = 1_700_000_000_123;

fn object(members: &[(&str, Value)]) -> Value {
    let mut map = serde_json::Map::new();
    for (name, value) in members {
        map.insert(name.to_string(), value.clone());
    }
    Value::Object(map)
}

fn texts(members: &[(&str, &str)]) -> Value {
    let mut map = serde_json::Map::new();
    for (name, value) in members {
        map.insert(name.to_string(), Value::String(value.to_string()));
    }
    Value::Object(map)
}

fn reference_hmac(key: &[u8], data: &[u8]) -> String {
    let mut mac = hmac::Hmac::<md5::Md5>::new_from_slice(key).unwrap();
    mac.update(data);
    hex::encode_upper(mac.finalize().into_bytes())
}

fn text_of<'a>(json: &'a Json, path: &[&str]) -> Option<&'a str> {
    let mut at = json;
    for name in path {
        at = at.member(name)?;
    }
    at.text().map(|s| s.as_str())
}

fn member_names(json: &Json) -> Vec<String> {
    match json {
        Json::Object(members) => members.iter().map(|(name, _)| name.clone()).collect(),
        _ => Vec::new(),
    }
}

fn challenge_body() -> String {
    object(&[(
        "LoginResponse",
        texts(&[
            ("Challenge", "abc"),
            ("Cookie", "cook"),
            ("PublicKey", "pub"),
            ("LoginResult", "OK"),
        ]),
    )])
    .to_string()
}

fn login_body(status: &str) -> String {
    object(&[("LoginResponse", texts(&[("LoginResult", status)]))]).to_string()
}

fn challenged() -> (SOAPClient, SignedRequest) {
    let mut client = SOAPClient::new("https://192.168.100.1/HNAP1/".to_string(), true);
    let request = client.challenge_reply("admin", "pw", 200, &challenge_body(), NOW).unwrap();
    (client, request)
}

fn authenticated() -> SOAPClient {
    let (mut client, _) = challenged();
    client.login_reply(200, &login_body("OK")).unwrap();
    client
}

#[test]
fn hmac_md5_of_known_inputs() {
    assert_eq!(
        hex_hmac_md5(b"Jefe", b"what do ya want for nothing?"),
        "750C783E6AB0B503EAA86E310A5DB738"
    );
    assert_eq!(hex_hmac_md5(&[0x0b; 16], b"Hi There"), "9294727A3638BB1C13F48EF8158BFC9D");
    assert_eq!(hex_hmac_md5(b"", b""), reference_hmac(b"", b""));
    assert_eq!(sign("Jefe", "what do ya want for nothing?"), "750C783E6AB0B503EAA86E310A5DB738");
    assert_eq!(sign("schlüssel", "größe"), reference_hmac("schlüssel".as_bytes(), "größe".as_bytes()));
}

#[test]
fn signature_has_thirty_two_upper_hex_digits() {
    let long_key = [0xaa_u8; 80];
    let texts = [
        hex_hmac_md5(b"", b""),
        hex_hmac_md5(&long_key, b"Test Using Larger Than Block-Size Key - Hash Key First"),
        sign("withoutloginkey", "1700000000000http://purenetworks.com/HNAP1/Login"),
    ];
    for text in texts.iter() {
        assert_eq!(text.len(), 32);
        assert!(text.chars().all(|c| c.is_ascii_digit() || ('A'..='F').contains(&c)));
    }
    assert_eq!(texts[1], "6B1AB7FE4BD7BF8F0B62E6CE61B9D0CD");
}

#[test]
fn new_session_signs_with_the_default_key() {
    let client = SOAPClient::new("https://192.168.100.1/HNAP1/".to_string(), true);
    assert_eq!(client.endpoint(), "https://192.168.100.1/HNAP1/");
    assert!(client.accept_invalid_certs());
    assert_eq!(client.private_key(), "withoutloginkey");
    assert_eq!(client.cookie(), "");
    assert_eq!(client.state(), AuthState::Unauthenticated);
}

#[test]
fn request_for_a_challenge() {
    let client = SOAPClient::new("https://192.168.100.1/HNAP1/".to_string(), false);
    let request = client.login("admin", NOW);
    assert_eq!(request.soap_action, "http://purenetworks.com/HNAP1/Login");
    assert_eq!(request.cookie, "Secure; uid=; PrivateKey=withoutloginkey");
    let signature = reference_hmac(
        b"withoutloginkey",
        b"1700000000123http://purenetworks.com/HNAP1/Login",
    );
    assert_eq!(request.hnap_auth, format!("{} 1700000000123", signature));
    assert_eq!(member_names(&request.body), vec!["Login"]);
    assert_eq!(member_names(request.body.member("Login").unwrap()), vec!["Action", "Username"]);
    assert_eq!(text_of(&request.body, &["Login", "Action"]), Some("request"));
    assert_eq!(text_of(&request.body, &["Login", "Username"]), Some("admin"));
    assert_eq!(client.state(), AuthState::Unauthenticated);
}

#[test]
fn any_action_is_signed_with_time_and_name() {
    let client = SOAPClient::new("e".to_string(), false);
    let params = vec![("b".to_string(), "2".to_string()), ("a".to_string(), "1".to_string())];
    let request = client.send_soap_action("GetThing", &params, 0);
    assert_eq!(request.soap_action, "http://purenetworks.com/HNAP1/GetThing");
    let signature =
        reference_hmac(b"withoutloginkey", b"0http://purenetworks.com/HNAP1/GetThing");
    assert_eq!(request.hnap_auth, format!("{} 0", signature));
    assert_eq!(member_names(request.body.member("GetThing").unwrap()), vec!["b", "a"]);
    assert_eq!(text_of(&request.body, &["GetThing", "a"]), Some("1"));
    let later = client.send_soap_action("GetThing", &params, 1);
    assert_ne!(later.hnap_auth, request.hnap_auth);
}

#[test]
fn challenge_derives_the_session_key() {
    let (client, request) = challenged();
    let key = reference_hmac(b"pubpw", b"abc");
    assert_eq!(client.private_key(), &key);
    assert_ne!(client.private_key(), "withoutloginkey");
    assert_eq!(client.cookie(), "cook");
    assert_eq!(client.state(), AuthState::ChallengeObtained);
    assert_eq!(request.cookie, format!("Secure; uid=cook; PrivateKey={}", key));
    let signature = reference_hmac(
        key.as_bytes(),
        b"1700000000123http://purenetworks.com/HNAP1/Login",
    );
    assert_eq!(request.hnap_auth, format!("{} 1700000000123", signature));
    assert_eq!(
        member_names(request.body.member("Login").unwrap()),
        vec!["Action", "Username", "LoginPassword", "Captcha", "PrivateLogin"]
    );
    assert_eq!(text_of(&request.body, &["Login", "Action"]), Some("login"));
    assert_eq!(text_of(&request.body, &["Login", "Username"]), Some("admin"));
    assert_eq!(
        text_of(&request.body, &["Login", "LoginPassword"]),
        Some(reference_hmac(key.as_bytes(), b"abc").as_str())
    );
    assert_eq!(text_of(&request.body, &["Login", "Captcha"]), Some(""));
    assert_eq!(text_of(&request.body, &["Login", "PrivateLogin"]), Some("LoginPassword"));
}

#[test]
fn login_with_challenge_takes_key_and_cookie_as_given() {
    let mut client = SOAPClient::new("e".to_string(), false);
    let request = client.login_with_challenge("u", "p", "K", "C", "uid", 5);
    assert_eq!(client.private_key(), &reference_hmac(b"Kp", b"C"));
    assert_eq!(client.cookie(), "uid");
    assert_eq!(client.state(), AuthState::ChallengeObtained);
    assert_eq!(request.soap_action, "http://purenetworks.com/HNAP1/Login");
}

#[test]
fn challenge_without_its_fields_fails_the_login() {
    for missing in ["Challenge", "PublicKey", "Cookie", "LoginResult"] {
        let all = [
            ("Challenge", "abc"),
            ("Cookie", "cook"),
            ("PublicKey", "pub"),
            ("LoginResult", "OK"),
        ];
        let kept: Vec<(&str, &str)> = all.iter().filter(|(n, _)| *n != missing).cloned().collect();
        let body = object(&[("LoginResponse", texts(&kept))]).to_string();
        let mut client = SOAPClient::new("e".to_string(), false);
        let outcome = client.challenge_reply("admin", "pw", 200, &body, NOW);
        assert!(matches!(outcome, Err(Error::DecodeError)));
        assert_eq!(client.state(), AuthState::Failed);
        assert_eq!(client.private_key(), "withoutloginkey");
        assert_eq!(client.cookie(), "");
    }
}

#[test]
fn challenge_that_is_no_reply_fails_the_login() {
    let mut client = SOAPClient::new("e".to_string(), false);
    assert!(matches!(
        client.challenge_reply("admin", "pw", 500, &challenge_body(), NOW),
        Err(Error::TransportError(500))
    ));
    assert_eq!(client.state(), AuthState::Failed);
    let mut client = SOAPClient::new("e".to_string(), false);
    assert!(matches!(
        client.challenge_reply("admin", "pw", 200, "<html>", NOW),
        Err(Error::DecodeError)
    ));
    let mut client = SOAPClient::new("e".to_string(), false);
    let body = object(&[(
        "LoginResponse",
        object(&[
            ("Challenge", Value::Bool(true)),
            ("Cookie", Value::String("c".to_string())),
            ("PublicKey", Value::String("p".to_string())),
            ("LoginResult", Value::String("OK".to_string())),
        ]),
    )])
    .to_string();
    assert!(matches!(
        client.challenge_reply("admin", "pw", 200, &body, NOW),
        Err(Error::DecodeError)
    ));
    let mut client = SOAPClient::new("e".to_string(), false);
    let body = object(&[("OtherResponse", texts(&[("LoginResult", "OK")]))]).to_string();
    assert!(matches!(
        client.challenge_reply("admin", "pw", 200, &body, NOW),
        Err(Error::DecodeError)
    ));
}

#[test]
fn status_ok_completes_the_login() {
    let (mut client, _) = challenged();
    let key = client.private_key().clone();
    let reply = client.login_reply(200, &login_body("OK")).unwrap();
    assert_eq!(reply.get_result(), "OK");
    assert_eq!(client.state(), AuthState::Authenticated);
    assert_eq!(client.private_key(), &key);
    let request = client.metrics(NOW);
    assert_eq!(request.cookie, format!("Secure; uid=cook; PrivateKey={}", key));
    let signature = reference_hmac(
        key.as_bytes(),
        b"1700000000123http://purenetworks.com/HNAP1/GetMultipleHNAPs",
    );
    assert_eq!(request.hnap_auth, format!("{} 1700000000123", signature));
}

#[test]
fn every_other_status_fails_the_login() {
    for status in ["FAILED", "LOCKUP", "REBOOT", "OK_CHANGED", "SOMETHING", ""] {
        let (mut client, _) = challenged();
        let key = client.private_key().clone();
        let outcome = client.login_reply(200, &login_body(status));
        assert_eq!(
            outcome,
            Err(Error::ProtocolError(ProtocolError::UnexpectedStatus(status.to_string())))
        );
        assert_eq!(client.state(), AuthState::Failed);
        assert_eq!(client.private_key(), &key);
    }
    let (mut client, _) = challenged();
    assert_eq!(
        client.login_reply(200, &login_body("ERROR")),
        Err(Error::ProtocolError(ProtocolError::ApplicationError))
    );
    assert_eq!(client.state(), AuthState::Failed);
    let (mut client, _) = challenged();
    assert_eq!(client.login_reply(404, &login_body("OK")), Err(Error::TransportError(404)));
    assert_eq!(client.state(), AuthState::Failed);
}

#[test]
fn poll_requests_name_their_reports() {
    let client = authenticated();
    let metrics = client.metrics(NOW);
    assert_eq!(metrics.soap_action, "http://purenetworks.com/HNAP1/GetMultipleHNAPs");
    let reports = metrics.body.member("GetMultipleHNAPs").unwrap();
    assert_eq!(
        member_names(reports),
        vec![
            "GetArrisDeviceStatus",
            "GetArrisRegisterInfo",
            "GetCustomerStatusStartupSequence",
            "GetCustomerStatusConnectionInfo",
            "GetCustomerStatusDownstreamChannelInfo",
            "GetCustomerStatusUpstreamChannelInfo",
        ]
    );
    for name in member_names(reports) {
        assert_eq!(text_of(reports, &[name.as_str()]), Some(""));
    }
    let logs = client.logs(NOW);
    assert_eq!(
        member_names(logs.body.member("GetMultipleHNAPs").unwrap()),
        vec!["GetCustomerStatusLog"]
    );
    assert_eq!(client.state(), AuthState::Authenticated);
}

fn metrics_body(downstream: &str, upstream: &str, status: &str) -> String {
    object(&[(
        "GetMultipleHNAPsResponse",
        object(&[
            (
                "GetArrisDeviceStatusResponse",
                texts(&[
                    ("FirmwareVersion", "1.0"),
                    ("InternetConnection", "Connected"),
                    ("DownstreamFrequency", "507000000 Hz"),
                    ("DownstreamSignalPower", "5 dBmV"),
                    ("DownstreamSignalSnr", "40 dB"),
                    ("GetArrisDeviceStatusResult", "OK"),
                ]),
            ),
            (
                "GetArrisRegisterInfoResponse",
                texts(&[
                    ("MacAddress", "00:11:22:33:44:55"),
                    ("SerialNumber", "SN1"),
                    ("ModelName", "S33"),
                    ("GetArrisRegisterInfoResult", "OK"),
                ]),
            ),
            (
                "GetCustomerStatusConnectionInfoResponse",
                texts(&[
                    ("CustomerConnSystemUpTime", "2 days 03h:04m:05s"),
                    ("CustomerCurSystemTime", "Wed Feb  1 08:09:10 2023"),
                    ("CustomerConnNetworkAccess", "Allowed"),
                    ("GetCustomerStatusConnectionInfoResult", "OK"),
                ]),
            ),
            (
                "GetCustomerStatusDownstreamChannelInfoResponse",
                texts(&[
                    ("CustomerConnDownstreamChannel", downstream),
                    ("GetCustomerStatusDownstreamChannelInfoResult", "OK"),
                ]),
            ),
            (
                "GetCustomerStatusUpstreamChannelInfoResponse",
                texts(&[
                    ("CustomerConnUpstreamChannel", upstream),
                    ("GetCustomerStatusUpstreamChannelInfoResult", "OK"),
                ]),
            ),
            (
                "GetCustomerStatusStartupSequenceResponse",
                texts(&[
                    ("CustomerConnDSFreq", "507000000"),
                    ("CustomerConnDSComment", "Locked"),
                    ("CustomerConnConnectivityStatus", "OK"),
                    ("CustomerConnConnectivityComment", "Operational"),
                    ("CustomerConnBootStatus", "OK"),
                    ("CustomerConnBootComment", "Operational"),
                    ("CustomerConnConfigurationFileStatus", "OK"),
                    ("CustomerConnConfigurationFileComment", ""),
                    ("CustomerConnSecurityStatus", "Enabled"),
                    ("CustomerConnSecurityComment", "BPI+"),
                    ("GetCustomerStatusStartupSequenceResult", "OK"),
                ]),
            ),
            ("GetMultipleHNAPsResult", Value::String(status.to_string())),
            ("Unknown", Value::Null),
        ]),
    )])
    .to_string()
}

const DOWN: &str = "1^Locked^QAM256^20^507000000^5^40^12^3^|+|2^Locked^OFDM PLC^33^690000000^6^41^0^0^";
const UP: &str = "1^Locked^SC-QAM^3^6400000^22800000^44.3^";

#[test]
fn metrics_reply_carries_the_channel_tables() {
    let client = authenticated();
    let metrics = client.metrics_reply(200, &metrics_body(DOWN, UP, "OK")).unwrap();
    assert_eq!(metrics.get_result(), "OK");
    let down =
        &metrics.get_customer_status_downstream_channel_info_response.customer_conn_downstream_channel;
    assert_eq!(down.len(), 2);
    assert!(matches!(&down[0], Channel::Downstream(c)
        if c.channel_id == 20 && c.lock_status && c.modulation == Modulation::QAM256
            && c.frequency == 507000000 && c.power == 5 && c.snr == 40 && c.corrected == 12
            && c.uncorrectables == 3));
    assert!(matches!(&down[1], Channel::Downstream(c)
        if c.channel_id == 33 && c.modulation == Modulation::OFDMPLC));
    let up = &metrics.get_customer_status_upstream_channel_info_response.customer_conn_upstream_channel;
    assert!(matches!(&up[0], Channel::Upstream(c)
        if c.channel_id == 3 && c.width == 6400000 && c.frequency == 22800000 && c.power == "44.3"));
    let connection = &metrics.get_customer_status_connection_info_response;
    assert_eq!(connection.customer_conn_system_up_time, 183845);
    assert_eq!(connection.customer_cur_system_time, Timestamp { secs: 1675238950, nanos: 0 });
    assert_eq!(connection.customer_conn_network_access, "Allowed");
    assert_eq!(metrics.get_arris_register_info_response.model_name, "S33");
    assert_eq!(metrics.get_arris_device_status_response.firmware_version, "1.0");
    assert_eq!(metrics.get_customer_status_startup_sequence_response.customer_conn_d_s_freq, "507000000");
    assert_eq!(client.state(), AuthState::Authenticated);
}

#[test]
fn metrics_reply_reports_what_is_wrong() {
    let client = authenticated();
    assert_eq!(
        client.metrics_reply(200, &metrics_body("garbage", UP, "OK")),
        Err(Error::MalformedField("garbage".to_string()))
    );
    assert_eq!(
        client.metrics_reply(200, &metrics_body(DOWN, "1^Locked^", "OK")),
        Err(Error::MalformedField("1^Locked^".to_string()))
    );
    assert_eq!(
        client.metrics_reply(200, &metrics_body(DOWN, UP, "ERROR")),
        Err(Error::ProtocolError(ProtocolError::ApplicationError))
    );
    assert_eq!(
        client.metrics_reply(503, &metrics_body(DOWN, UP, "OK")),
        Err(Error::TransportError(503))
    );
    assert_eq!(client.metrics_reply(200, "{"), Err(Error::DecodeError));
    assert_eq!(client.metrics_reply(200, "[]"), Err(Error::DecodeError));
    assert_eq!(client.metrics_reply(200, "{}"), Err(Error::DecodeError));
    assert!(client.metrics_reply(200, &metrics_body(DOWN, UP, "anything else")).is_ok());
    assert_eq!(client.state(), AuthState::Authenticated);
}

fn logs_body(log: &str) -> String {
    object(&[(
        "GetMultipleHNAPsResponse",
        object(&[
            (
                "GetCustomerStatusLogResponse",
                texts(&[("CustomerStatusLogList", log), ("GetCustomerStatusLogResult", "OK")]),
            ),
            ("GetMultipleHNAPsResult", Value::String("OK".to_string())),
        ]),
    )])
    .to_string()
}

#[test]
fn logs_reply_carries_the_log() {
    let client = authenticated();
    let logs = client
        .logs_reply(
            200,
            &logs_body("0^08:09:10^01/02/2023^5^hello}-{0^09:09:10^01/02/2023^3^world"),
        )
        .unwrap();
    let list = &logs.get_customer_status_log_response.customer_status_log_list;
    assert_eq!(list.len(), 2);
    assert_eq!(list[0].level, Level::Info);
    assert_eq!(list[0].message, "hello");
    assert_eq!(list[0].timestamp, Timestamp { secs: 1675238950, nanos: 0 });
    assert_eq!(list[1].level, Level::Error);
    assert_eq!(list[1].message, "world");
    assert_eq!(list[1].timestamp, Timestamp { secs: 1675242550, nanos: 0 });
    assert_eq!(logs.get_customer_status_log_response.get_result(), "OK");
    assert_eq!(
        client.logs_reply(200, &logs_body("0^08:09:10^01/02/2023^5^hello}-{bad")),
        Err(Error::MalformedField("bad".to_string()))
    );
}

#[test]
fn replies_decode_from_their_entries() {
    let entry = parse_json(
        &texts(&[
            ("MacAddress", "m"),
            ("SerialNumber", "s"),
            ("ModelName", "S33"),
            ("GetArrisRegisterInfoResult", "OK"),
            ("More", "ignored"),
        ])
        .to_string(),
    )
    .unwrap();
    let info = ArrisRegisterInfoResponse::from_json(&entry).unwrap();
    assert_eq!(info.mac_address, "m");
    assert_eq!(info.serial_number, "s");
    assert_eq!(info.model_name, "S33");
    assert_eq!(info.get_result(), "OK");
    let entry =
        parse_json(&texts(&[("MacAddress", "m"), ("SerialNumber", "s")]).to_string()).unwrap();
    assert_eq!(ArrisRegisterInfoResponse::from_json(&entry), Err(Error::DecodeError));
    let entry = parse_json(
        &texts(&[
            ("CustomerConnSystemUpTime", "soon"),
            ("CustomerCurSystemTime", "Wed Feb  1 08:09:10 2023"),
            ("CustomerConnNetworkAccess", "Allowed"),
            ("GetCustomerStatusConnectionInfoResult", "OK"),
        ])
        .to_string(),
    )
    .unwrap();
    assert_eq!(
        StatusConnectionInfoResponse::from_json(&entry),
        Err(Error::MalformedField("soon".to_string()))
    );
    let entry = parse_json(
        &texts(&[
            ("CustomerConnSystemUpTime", "0 days 00h:00m:01s"),
            ("CustomerCurSystemTime", "today"),
            ("CustomerConnNetworkAccess", "Allowed"),
            ("GetCustomerStatusConnectionInfoResult", "OK"),
        ])
        .to_string(),
    )
    .unwrap();
    assert_eq!(
        StatusConnectionInfoResponse::from_json(&entry),
        Err(Error::MalformedField("today".to_string()))
    );
    let reply: Result<LoginResponse, Error> = decode_reply("Login", 200, &challenge_body());
    let reply = reply.unwrap();
    assert_eq!(reply.public_key, "pub");
    assert_eq!(reply.challenge, "abc");
    assert_eq!(reply.cookie, "cook");
    let log: Result<StatusLogResponse, Error> = decode_reply(
        "GetCustomerStatusLog",
        200,
        &object(&[(
            "GetCustomerStatusLogResponse",
            texts(&[("CustomerStatusLogList", "x"), ("GetCustomerStatusLogResult", "OK")]),
        )])
        .to_string(),
    );
    assert_eq!(log, Err(Error::MalformedField("x".to_string())));
}

#[test]
fn json_documents_are_read() {
    let json = parse_json(r#"{"a": {"b": "c", "n": 1.5, "t": true, "z": null, "l": ["x", 2]}}"#)
        .unwrap();
    assert_eq!(text_of(&json, &["a", "b"]), Some("c"));
    assert!(json.member("b").is_none());
    assert!(json.text().is_none());
    let inner = json.member("a").unwrap();
    assert!(matches!(inner.member("n"), Some(Json::Number(n)) if n == "1.5"));
    assert!(matches!(inner.member("t"), Some(Json::Bool(true))));
    assert!(matches!(inner.member("z"), Some(Json::Null)));
    assert!(matches!(inner.member("l"), Some(Json::Array(items))
        if items.len() == 2 && matches!(&items[0], Json::Str(s) if s == "x")
            && matches!(&items[1], Json::Number(n) if n == "2")));
    assert!(inner.member("l").unwrap().member("x").is_none());
    assert!(parse_json("not json").is_none());
    assert!(parse_json("").is_none());
    assert!(matches!(parse_json("\"only text\""), Some(Json::Str(s)) if s == "only text"));
    assert!(matches!(Json::string("s"), Json::Str(s) if s == "s"));
    let made = Json::object(vec![("k".to_string(), Json::string("v"))]);
    assert_eq!(text_of(&made, &["k"]), Some("v"));
    let twice = parse_json(r#"{"k": "first", "k": "second"}"#).unwrap();
    assert_eq!(text_of(&twice, &["k"]), Some("second"));
}

#[test]
fn login_failures_are_told_apart() {
    assert_eq!(LoginFailure::from_status("FAILED"), LoginFailure::Credentials);
    assert_eq!(LoginFailure::from_status("LOCKUP"), LoginFailure::Lockup);
    assert_eq!(LoginFailure::from_status("REBOOT"), LoginFailure::Reboot);
    assert_eq!(LoginFailure::from_status("OK_CHANGED"), LoginFailure::SettingsChanged);
    assert_eq!(LoginFailure::from_status("failed"), LoginFailure::Unrecognized);
    assert_eq!(LoginFailure::from_status(""), LoginFailure::Unrecognized);
    assert_eq!(LoginFailure::Credentials.message(), "Username or password error");
    assert_eq!(LoginFailure::Lockup.message(), "Max number of login attempts reached");
    assert_eq!(
        LoginFailure::Reboot.message(),
        "Account locked, reboot required to re-enable account"
    );
    assert_eq!(LoginFailure::SettingsChanged.message(), "May need to reset login settings");
    assert_eq!(LoginFailure::Unrecognized.message(), "Unknown response from modem");
    let (mut client, _) = challenged();
    match client.login_reply(200, &login_body("FAILED")) {
        Err(Error::ProtocolError(ProtocolError::UnexpectedStatus(status))) => {
            assert_eq!(LoginFailure::from_status(&status), LoginFailure::Credentials)
        }
        other => panic!("{:?}", other),
    }
}
