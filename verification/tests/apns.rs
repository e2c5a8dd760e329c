use serde_json::Value;
use sidepulse_bridge::apns::{
    build_payload, env_any, send_result, Apns, ApnsEnv, ApnsMessage, ApnsResponse,
};

fn env() -> ApnsEnv {
    ApnsEnv {
        key_path: Some("/k.p8".to_string()),
        auth_key: None,
        key_id: Some("KEY".to_string()),
        team_id: Some("TEAM".to_string()),
        topic: Some("io.sidepulse.ios".to_string()),
        bundle_id: None,
        sandbox: None,
        env: None,
    }
}

#[test]
fn visible_notification_also_requests_background_delivery() {
    let msg = ApnsMessage {
        leds: "LED TEXT".into(),
        title: "Title".into(),
        text: "Message".into(),
        ..Default::default()
    };

    let payload = build_payload("token", &msg, "io.sidepulse.ios").unwrap();
    let json = serde_json::to_value(payload).unwrap();

    assert_eq!(json["aps"]["content-available"], 1);
    assert_eq!(json["aps"]["alert"]["title"], "Title");
    assert_eq!(json["aps"]["alert"]["body"], "Message");
    assert_eq!(json["leds"], "LED TEXT");
}

#[test]
fn silent_notification_keeps_background_delivery() {
    let msg = ApnsMessage {
        leds: "LED TEXT".into(),
        ..Default::default()
    };

    let payload = build_payload("token", &msg, "io.sidepulse.ios").unwrap();
    let json = serde_json::to_value(payload).unwrap();

    assert_eq!(json["aps"]["content-available"], 1);
    assert!(json["aps"].get("alert").is_none());
    assert_eq!(json["leds"], "LED TEXT");
}

#[test]
fn payload_carries_token_topic_and_headers() {
    let msg = ApnsMessage {
        title: "T".into(),
        ..Default::default()
    };
    let payload = build_payload("tok", &msg, "top").unwrap();
    assert_eq!(payload.device_token, "tok");
    assert_eq!(payload.options.apns_topic, Some("top"));
    assert_eq!(payload.options.apns_push_type, Some(a2::PushType::Alert));
    assert!(matches!(
        payload.options.apns_priority,
        Some(a2::Priority::High)
    ));
    let json = serde_json::to_value(payload).unwrap();
    assert_eq!(json["aps"]["sound"], "default");
    assert!(json["aps"]["alert"].get("body").is_none());
    assert!(json.get("leds").is_none());
}

#[test]
fn silent_payload_has_background_headers() {
    let msg = ApnsMessage::parse("HELLO", None);
    let payload = build_payload("tok", &msg, "top").unwrap();
    assert_eq!(
        payload.options.apns_push_type,
        Some(a2::PushType::Background)
    );
    assert!(matches!(
        payload.options.apns_priority,
        Some(a2::Priority::Normal)
    ));
    let json = serde_json::to_value(payload).unwrap();
    assert!(json["aps"].get("sound").is_none());
    assert_eq!(json["leds"], "HELLO");
    assert_eq!(json.as_object().unwrap().len(), 2);
}

#[test]
fn alert_key_is_the_body_and_the_title_defaults() {
    let msg = ApnsMessage {
        alert: "Look".into(),
        ..Default::default()
    };
    let json = serde_json::to_value(build_payload("t", &msg, "x").unwrap()).unwrap();
    assert_eq!(json["aps"]["alert"]["title"], "SidePulse");
    assert_eq!(json["aps"]["alert"]["body"], "Look");

    let msg = ApnsMessage {
        alert: "Look".into(),
        text: "Text".into(),
        ..Default::default()
    };
    let json = serde_json::to_value(build_payload("t", &msg, "x").unwrap()).unwrap();
    assert_eq!(json["aps"]["alert"]["body"], "Text");
}

#[test]
fn custom_keys_are_passed_through() {
    let data: Value = serde_json::from_str(r#"{"any":["extra",1,2.5,null,true]}"#).unwrap();
    let msg = ApnsMessage {
        leds_txt: "B".into(),
        leds_txt_upper: "C".into(),
        pattern: "rainbow".into(),
        data: Some(data.clone()),
        ..Default::default()
    };
    let json = serde_json::to_value(build_payload("t", &msg, "x").unwrap()).unwrap();
    assert_eq!(json["leds"], "B");
    assert_eq!(json["pattern"], "rainbow");
    assert_eq!(json["data"], data);
}

#[test]
fn led_text_takes_the_first_key_that_is_set() {
    let mut msg = ApnsMessage::default();
    assert_eq!(msg.led_text(), "");
    msg.leds_txt_upper = "C".into();
    assert_eq!(msg.led_text(), "C");
    msg.leds_txt = "B".into();
    assert_eq!(msg.led_text(), "B");
    msg.leds = "A".into();
    assert_eq!(msg.led_text(), "A");
}

#[test]
fn parse_keeps_what_was_decoded() {
    let decoded = ApnsMessage {
        title: "T".into(),
        ..Default::default()
    };
    let msg = ApnsMessage::parse("ignored", Some(decoded));
    assert_eq!(msg.title, "T");
    assert_eq!(msg.leds, "");
    let msg = ApnsMessage::parse("plain", None);
    assert_eq!(msg.leds, "plain");
    assert_eq!(msg.title, "");
    assert!(msg.data.is_none());
}

#[test]
fn configuration_from_the_environment() {
    let apns = Apns::from_env(env()).unwrap().unwrap();
    assert_eq!(apns.key_path, "/k.p8");
    assert_eq!(apns.key_id, "KEY");
    assert_eq!(apns.team_id, "TEAM");
    assert_eq!(apns.topic, "io.sidepulse.ios");
    assert!(!apns.sandbox);

    let apns = Apns::from_env(ApnsEnv {
        key_path: None,
        auth_key: Some("/a.p8".to_string()),
        topic: None,
        bundle_id: Some("bundle".to_string()),
        sandbox: Some("true".to_string()),
        ..env()
    })
    .unwrap()
    .unwrap();
    assert_eq!(apns.key_path, "/a.p8");
    assert_eq!(apns.topic, "bundle");
    assert!(apns.sandbox);
}

#[test]
fn configuration_errors() {
    assert!(Apns::from_env(ApnsEnv {
        key_path: None,
        key_id: None,
        ..env()
    })
    .unwrap()
    .is_none());
    let missing = |vars: ApnsEnv| Apns::from_env(vars).err().unwrap();
    assert_eq!(
        missing(ApnsEnv {
            key_id: None,
            team_id: None,
            ..env()
        }),
        "APNS_KEY_ID not set"
    );
    assert_eq!(
        missing(ApnsEnv {
            team_id: None,
            topic: None,
            ..env()
        }),
        "APNS_TEAM_ID not set"
    );
    assert_eq!(
        missing(ApnsEnv {
            topic: None,
            ..env()
        }),
        "APNS_TOPIC not set"
    );
}

#[test]
fn sandbox_is_asked_for_by_either_variable() {
    let sandbox = |sandbox: Option<&str>, mode: Option<&str>| {
        Apns::from_env(ApnsEnv {
            sandbox: sandbox.map(str::to_string),
            env: mode.map(str::to_string),
            ..env()
        })
        .unwrap()
        .unwrap()
        .sandbox
    };
    assert!(sandbox(Some("1"), None));
    assert!(!sandbox(Some("yes"), None));
    assert!(!sandbox(Some("11"), Some("production")));
    assert!(sandbox(None, Some("sandbox")));
    assert!(!sandbox(None, None));
}

#[test]
fn env_any_prefers_the_first_name() {
    assert_eq!(
        env_any(Some("a".to_string()), Some("b".to_string())),
        Some("a".to_string())
    );
    assert_eq!(env_any(None, Some("b".to_string())), Some("b".to_string()));
    assert_eq!(env_any(None, None), None);
}

#[test]
fn answers_of_the_push_service() {
    let answer = |code: u16| {
        send_result(Ok(ApnsResponse {
            code,
            reason: "Some(BadDeviceToken)".to_string(),
        }))
    };
    assert_eq!(answer(200), Ok(()));
    assert_eq!(
        answer(410),
        Err("apns status 410: Some(BadDeviceToken)".to_string())
    );
    assert_eq!(
        answer(0),
        Err("apns status 0: Some(BadDeviceToken)".to_string())
    );
    assert_eq!(
        send_result(Err("timed out".to_string())),
        Err("timed out".to_string())
    );
}

#[test]
fn configured_payload_uses_the_topic() {
    let apns = Apns::from_env(env()).unwrap().unwrap();
    let msg = ApnsMessage::parse("x", None);
    let payload = apns.payload("tok", &msg).unwrap();
    assert_eq!(payload.options.apns_topic, Some("io.sidepulse.ios"));
}

#[test]
fn plain_text_is_the_object_with_leds_alone() {
    let object = ApnsMessage {
        leds: "hello".into(),
        ..Default::default()
    };
    let plain = ApnsMessage::parse("hello", None);
    let decoded = ApnsMessage::parse(r#"{"leds":"hello"}"#, Some(object));
    assert_eq!(
        serde_json::to_value(build_payload("t", &plain, "x").unwrap()).unwrap(),
        serde_json::to_value(build_payload("t", &decoded, "x").unwrap()).unwrap()
    );
}
