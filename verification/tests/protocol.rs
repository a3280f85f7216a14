use maelstrom::echo::EchoPayload;
use maelstrom::g_counter::CounterPayload;
use maelstrom::json::Json;
use maelstrom::protocol::InitPayload;
use maelstrom::{Error, Message, MessageBody, MessageID, NodeID};

#[test]
fn it_works_with_init_example() {
    let message_json = r##"
        {
            "src": "c1",
            "dest": "n3",
            "body": {
                "type":     "init",
                "msg_id":   1,
                "node_id":  "n3",
                "node_ids": ["n1", "n2", "n3"]
            }
        }
    "##;
    let message: Message<InitPayload> = Message::parse(message_json)
        .and_then(|m| m.into_payload())
        .expect("works");
    assert_eq!(
        message,
        Message {
            src: "c1".into(),
            dst: "n3".into(),
            body: MessageBody {
                msg_id: Some(1.into()),
                in_reply_to: None,
                payload: InitPayload::Init {
                    node_id: "n3".into(),
                    node_ids: vec!["n1".into(), "n2".into(), "n3".into()]
                }
            }
        }
    )
}

#[test]
fn node_ids_tell_servers_from_clients() {
    assert!(NodeID::from("n1").is_server());
    assert!(!NodeID::from("n1").is_client());
    assert!(NodeID::from("c12").is_client());
    assert!(!NodeID::from("c12").is_server());
    assert!(!NodeID::from("seq-kv").is_server());
    assert!(!NodeID::from("seq-kv").is_client());
    assert!(!NodeID::from("").is_server());
    assert!(!NodeID::from("").is_client());
}

#[test]
fn node_ids_are_compared_by_their_text() {
    assert_eq!(NodeID::from("n1"), NodeID::from("n1".to_string()));
    assert_ne!(NodeID::from("n1"), NodeID::from("n2"));
    assert_eq!(NodeID::from("n7").as_str(), "n7");
    assert_eq!(NodeID::from("n7").clone(), NodeID::from("n7"));
}

#[test]
fn message_ids_wrap_a_number() {
    assert_eq!(MessageID::from(5), MessageID(5));
    assert_eq!(MessageID(5).0, 5);
}

#[test]
fn envelope_survives_the_wire() {
    let message = Message {
        src: NodeID::from("n1"),
        dst: NodeID::from("c1"),
        body: MessageBody {
            msg_id: Some(MessageID(7)),
            in_reply_to: Some(MessageID(3)),
            payload: InitPayload::InitOk,
        },
    };
    let line = message.to_line().expect("prints");
    assert_eq!(
        line,
        "{\"body\":{\"in_reply_to\":3,\"msg_id\":7,\"type\":\"init_ok\"},\"dest\":\"c1\",\"src\":\"n1\"}"
    );
    let back: Message<InitPayload> =
        Message::parse(&line).and_then(|m| m.into_payload()).expect("reads");
    assert_eq!(back, message);
}

#[test]
fn init_survives_the_wire() {
    let message = Message {
        src: NodeID::from("c1"),
        dst: NodeID::from("n1"),
        body: MessageBody {
            msg_id: None,
            in_reply_to: None,
            payload: InitPayload::Init {
                node_id: "n1".into(),
                node_ids: vec!["n1".into(), "n2".into()],
            },
        },
    };
    let line = message.to_line().expect("prints");
    assert_eq!(
        line,
        "{\"body\":{\"in_reply_to\":null,\"msg_id\":null,\"node_id\":\"n1\",\"node_ids\":[\"n1\",\"n2\"],\"type\":\"init\"},\"dest\":\"n1\",\"src\":\"c1\"}"
    );
    assert_eq!(Message::from_json(&Json::parse(&line).expect("document")), Ok(message));
}

#[test]
fn payload_of_a_generic_envelope_leaves_the_identifiers_out() {
    let generic = Message::parse(
        "{\"src\":\"c1\",\"dest\":\"n1\",\"body\":{\"msg_id\":2,\"in_reply_to\":null,\"type\":\"x\",\"k\":1}}",
    )
    .expect("envelope");
    assert_eq!(generic.src, NodeID::from("c1"));
    assert_eq!(generic.dst, NodeID::from("n1"));
    assert_eq!(generic.body.msg_id, Some(MessageID(2)));
    assert_eq!(generic.body.in_reply_to, None);
    assert_eq!(
        generic.body.payload,
        Json::Object(vec![
            ("k".to_string(), Json::Number(1)),
            ("type".to_string(), Json::Text("x".to_string())),
        ])
    );
}

#[test]
fn parse_tells_a_broken_line_from_a_broken_envelope() {
    assert_eq!(Message::parse("{\"src\":").err(), Some(Error::Malformed));
    assert_eq!(Message::parse("[1, 2]").err(), Some(Error::Envelope));
    assert_eq!(
        Message::parse("{\"src\":\"c1\",\"body\":{\"type\":\"x\"}}").err(),
        Some(Error::Envelope)
    );
    assert_eq!(
        Message::parse("{\"src\":\"c1\",\"dest\":\"n1\",\"body\":7}").err(),
        Some(Error::Envelope)
    );
    assert_eq!(
        Message::parse("{\"src\":1,\"dest\":\"n1\",\"body\":{}}").err(),
        Some(Error::Envelope)
    );
    assert_eq!(
        Message::parse("{\"src\":\"c1\",\"dest\":\"n1\",\"body\":{\"msg_id\":\"7\"}}").err(),
        Some(Error::Envelope)
    );
    assert_eq!(
        Message::parse("{\"src\":\"c1\",\"dest\":\"n1\",\"body\":{\"msg_id\":4294967296}}").err(),
        Some(Error::Envelope)
    );
}

#[test]
fn into_payload_refuses_what_is_no_payload_of_the_kind() {
    let unknown = Message::parse("{\"src\":\"c1\",\"dest\":\"n1\",\"body\":{\"type\":\"echo\"}}")
        .expect("envelope");
    assert_eq!(unknown.into_payload::<InitPayload>().err(), Some(Error::Payload));
    let untagged =
        Message::parse("{\"src\":\"c1\",\"dest\":\"n1\",\"body\":{}}").expect("envelope");
    assert_eq!(untagged.into_payload::<InitPayload>().err(), Some(Error::Payload));
    let short = Message::parse(
        "{\"src\":\"c1\",\"dest\":\"n1\",\"body\":{\"type\":\"init\",\"node_id\":\"n1\"}}",
    )
    .expect("envelope");
    assert_eq!(short.into_payload::<InitPayload>().err(), Some(Error::Payload));
}

#[test]
fn errors_have_messages() {
    assert_eq!(Error::Malformed.message(), "Couldn't deserialize Message");
    assert_eq!(Error::Payload.message(), "Couldn't convert payload type!");
    assert_eq!(Error::InitNotFirst.message(), "Did not get Init message as first message");
    assert_eq!(Error::Unprintable.message(), "Failed to serialize Message");
}

#[test]
fn echo_and_counter_payloads_survive_the_wire() {
    for payload in [
        EchoPayload::Echo { echo: "a \"quoted\" line\n".to_string() },
        EchoPayload::EchoOk { echo: String::new() },
    ] {
        let message = Message {
            src: NodeID::from("c1"),
            dst: NodeID::from("n1"),
            body: MessageBody { msg_id: Some(MessageID(1)), in_reply_to: None, payload },
        };
        let line = message.to_line().expect("prints");
        assert!(!line.contains('\n'));
        let back: Message<EchoPayload> =
            Message::parse(&line).and_then(|m| m.into_payload()).expect("reads");
        assert_eq!(back, message);
    }
    for payload in [
        CounterPayload::Add { delta: u32::MAX },
        CounterPayload::AddOk,
        CounterPayload::Read,
        CounterPayload::ReadOk { value: 0 },
    ] {
        let message = Message {
            src: NodeID::from("c1"),
            dst: NodeID::from("n1"),
            body: MessageBody {
                msg_id: Some(MessageID(u32::MAX)),
                in_reply_to: Some(MessageID(0)),
                payload,
            },
        };
        let line = message.to_line().expect("prints");
        let back: Message<CounterPayload> =
            Message::parse(&line).and_then(|m| m.into_payload()).expect("reads");
        assert_eq!(back, message);
    }
}
