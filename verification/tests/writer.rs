use maelstrom::echo::EchoPayload;
use maelstrom::{Message, MessageBody, MessageID, MessageWriter, NodeID};

fn received(msg_id: Option<u32>) -> Message<EchoPayload> {
    Message {
        src: NodeID::from("c3"),
        dst: NodeID::from("n1"),
        body: MessageBody {
            msg_id: msg_id.map(MessageID),
            in_reply_to: None,
            payload: EchoPayload::Echo { echo: "hi".to_string() },
        },
    }
}

fn read_back(line: &str) -> Message<EchoPayload> {
    Message::parse(line).and_then(|m| m.into_payload()).expect("reads")
}

#[test]
fn identifiers_rise_from_zero() {
    let mut writer = MessageWriter::new(NodeID::from("n1"));
    assert_eq!(writer.next_id(), MessageID(0));
    let a = writer.send_to(&NodeID::from("n2"), EchoPayload::Echo { echo: "a".to_string() });
    let b = writer.reply_to(&received(Some(9)), EchoPayload::EchoOk { echo: "b".to_string() });
    let c = writer
        .send_and_receive(&NodeID::from("n3"), EchoPayload::Echo { echo: "c".to_string() });
    assert_eq!(a, Ok(MessageID(0)));
    assert_eq!(b, Ok(MessageID(1)));
    assert_eq!(c, Ok(MessageID(2)));
    assert_eq!(writer.next_id(), MessageID(3));
    let ids: Vec<Option<MessageID>> =
        writer.take_lines().iter().map(|line| read_back(line).body.msg_id).collect();
    assert_eq!(ids, vec![Some(MessageID(0)), Some(MessageID(1)), Some(MessageID(2))]);
}

#[test]
fn reply_goes_back_to_the_sender() {
    let mut writer = MessageWriter::new(NodeID::from("n1"));
    let sent = writer.reply_to(&received(Some(2)), EchoPayload::EchoOk { echo: "hi".to_string() });
    assert_eq!(sent, Ok(MessageID(0)));
    let lines = writer.take_lines();
    assert_eq!(
        lines,
        vec![
            "{\"body\":{\"echo\":\"hi\",\"in_reply_to\":2,\"msg_id\":0,\"type\":\"echo_ok\"},\"dest\":\"c3\",\"src\":\"n1\"}"
                .to_string()
        ]
    );
    let reply = read_back(&lines[0]);
    assert_eq!(reply.src, NodeID::from("n1"));
    assert_eq!(reply.dst, NodeID::from("c3"));
    assert_eq!(reply.body.in_reply_to, Some(MessageID(2)));
    assert_eq!(reply.body.msg_id, Some(MessageID(0)));
}

#[test]
fn reply_to_an_envelope_without_identifier_names_none() {
    let mut writer = MessageWriter::new(NodeID::from("n1"));
    writer
        .reply_to(&received(None), EchoPayload::EchoOk { echo: "hi".to_string() })
        .expect("sent");
    let reply = read_back(&writer.take_lines()[0]);
    assert_eq!(reply.body.in_reply_to, None);
}

#[test]
fn send_names_no_envelope() {
    let mut writer = MessageWriter::new(NodeID::from("n4"));
    writer.send_to(&NodeID::from("n5"), EchoPayload::Echo { echo: "x".to_string() }).expect("sent");
    let lines = writer.take_lines();
    assert_eq!(
        lines,
        vec![
            "{\"body\":{\"echo\":\"x\",\"in_reply_to\":null,\"msg_id\":0,\"type\":\"echo\"},\"dest\":\"n5\",\"src\":\"n4\"}"
                .to_string()
        ]
    );
    assert_eq!(writer.take_awaited(), vec![]);
}

#[test]
fn send_and_receive_notes_the_wait() {
    let mut writer = MessageWriter::new(NodeID::from("n1"));
    writer.send_to(&NodeID::from("n2"), EchoPayload::Echo { echo: "a".to_string() }).expect("sent");
    let call = writer
        .send_and_receive(&NodeID::from("n2"), EchoPayload::Echo { echo: "b".to_string() })
        .expect("sent");
    assert_eq!(call, MessageID(1));
    assert_eq!(writer.take_awaited(), vec![MessageID(1)]);
    assert_eq!(writer.take_awaited(), vec![]);
    let sent = read_back(&writer.take_lines()[1]);
    assert_eq!(sent.body.msg_id, Some(MessageID(1)));
    assert_eq!(sent.body.in_reply_to, None);
    assert_eq!(sent.dst, NodeID::from("n2"));
}

#[test]
fn lines_are_taken_once_and_in_order() {
    let mut writer = MessageWriter::new(NodeID::from("n1"));
    assert_eq!(writer.node_id(), &NodeID::from("n1"));
    assert!(writer.take_lines().is_empty());
    for echo in ["a", "b", "c"] {
        writer
            .send_to(&NodeID::from("n2"), EchoPayload::Echo { echo: echo.to_string() })
            .expect("sent");
    }
    let echoes: Vec<EchoPayload> =
        writer.take_lines().iter().map(|line| read_back(line).body.payload).collect();
    assert_eq!(
        echoes,
        vec![
            EchoPayload::Echo { echo: "a".to_string() },
            EchoPayload::Echo { echo: "b".to_string() },
            EchoPayload::Echo { echo: "c".to_string() },
        ]
    );
    assert!(writer.take_lines().is_empty());
    writer.send_to(&NodeID::from("n2"), EchoPayload::Echo { echo: "d".to_string() }).expect("sent");
    assert_eq!(read_back(&writer.take_lines()[0]).body.msg_id, Some(MessageID(3)));
}
