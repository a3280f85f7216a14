use maelstrom::json::Json;
use maelstrom::services::seq_kv::{KVPayload, SeqKV};
use maelstrom::unique_ids::{UniqueIds, UniqueIdsPayload};
use maelstrom::{App, Error, Message, MessageBody, MessageID, MessageWriter, NodeID};

fn answer(body: &str) -> Message<Json> {
    Message::parse(&format!("{{\"src\":\"seq-kv\",\"dest\":\"n1\",\"body\":{body}}}"))
        .expect("envelope")
}

#[test]
fn read_asks_the_store() {
    let mut writer = MessageWriter::new(NodeID::from("n1"));
    let call = SeqKV::new().read(&mut writer, "counter".to_string());
    assert_eq!(call, Ok(MessageID(0)));
    assert_eq!(writer.take_awaited(), vec![MessageID(0)]);
    assert_eq!(
        writer.take_lines(),
        vec![
            "{\"body\":{\"in_reply_to\":null,\"key\":\"counter\",\"msg_id\":0,\"type\":\"read\"},\"dest\":\"seq-kv\",\"src\":\"n1\"}"
                .to_string()
        ]
    );
}

#[test]
fn write_asks_the_store() {
    let mut writer = MessageWriter::new(NodeID::from("n2"));
    let call = SeqKV::new().write(&mut writer, 7u32, "seven".to_string());
    assert_eq!(call, Ok(MessageID(0)));
    assert_eq!(writer.take_awaited(), vec![MessageID(0)]);
    assert_eq!(
        writer.take_lines(),
        vec![
            "{\"body\":{\"in_reply_to\":null,\"key\":7,\"msg_id\":0,\"type\":\"write\",\"value\":\"seven\"},\"dest\":\"seq-kv\",\"src\":\"n2\"}"
                .to_string()
        ]
    );
}

#[test]
fn compare_and_swap_asks_the_store() {
    let mut writer = MessageWriter::new(NodeID::from("n1"));
    let call = SeqKV::new().compare_and_swap(&mut writer, "counter".to_string(), 3u32, 7u32);
    assert_eq!(call, Ok(MessageID(0)));
    assert_eq!(writer.take_awaited(), vec![MessageID(0)]);
    assert_eq!(
        writer.take_lines(),
        vec![
            "{\"body\":{\"create_if_not_exists\":true,\"from\":3,\"in_reply_to\":null,\"key\":\"counter\",\"msg_id\":0,\"to\":7,\"type\":\"cas\"},\"dest\":\"seq-kv\",\"src\":\"n1\"}"
                .to_string()
        ]
    );
}

#[test]
fn read_answer_is_the_value_or_none() {
    assert_eq!(
        SeqKV::read_answer::<u32>(answer("{\"type\":\"read_ok\",\"value\":12}")),
        Ok(Some(12))
    );
    assert_eq!(
        SeqKV::read_answer::<String>(answer("{\"type\":\"read_ok\",\"value\":\"x\"}")),
        Ok(Some("x".to_string()))
    );
    assert_eq!(
        SeqKV::read_answer::<u32>(answer("{\"type\":\"error\",\"code\":20,\"text\":\"gone\"}")),
        Ok(None)
    );
    assert_eq!(
        SeqKV::read_answer::<u32>(answer("{\"type\":\"error\",\"code\":22,\"text\":\"no\"}")),
        Err(Error::UnexpectedReply)
    );
    assert_eq!(
        SeqKV::read_answer::<u32>(answer("{\"type\":\"write_ok\"}")),
        Err(Error::UnexpectedReply)
    );
    assert_eq!(
        SeqKV::read_answer::<u32>(answer("{\"type\":\"read_ok\",\"value\":\"x\"}")),
        Err(Error::Payload)
    );
    assert_eq!(SeqKV::read_answer::<u32>(answer("{\"type\":\"nope\"}")), Err(Error::Payload));
}

#[test]
fn write_answer_must_be_write_ok() {
    assert_eq!(SeqKV::write_answer(answer("{\"type\":\"write_ok\"}")), Ok(()));
    assert_eq!(
        SeqKV::write_answer(answer("{\"type\":\"cas_ok\"}")),
        Err(Error::UnexpectedReply)
    );
    assert_eq!(
        SeqKV::write_answer(answer("{\"type\":\"error\",\"code\":20,\"text\":\"gone\"}")),
        Err(Error::UnexpectedReply)
    );
    assert_eq!(SeqKV::write_answer(answer("{\"echo\":\"x\"}")), Err(Error::Payload));
}

#[test]
fn compare_and_swap_answer_says_whether_the_value_was_put() {
    assert_eq!(SeqKV::compare_and_swap_answer(answer("{\"type\":\"cas_ok\"}")), Ok(true));
    assert_eq!(
        SeqKV::compare_and_swap_answer(answer(
            "{\"type\":\"error\",\"code\":22,\"text\":\"precondition failed\"}"
        )),
        Ok(false)
    );
    assert_eq!(
        SeqKV::compare_and_swap_answer(answer(
            "{\"type\":\"error\",\"code\":20,\"text\":\"key does not exist\"}"
        )),
        Err(Error::UnexpectedReply)
    );
    assert_eq!(
        SeqKV::compare_and_swap_answer(answer("{\"type\":\"write_ok\"}")),
        Err(Error::UnexpectedReply)
    );
    assert_eq!(
        SeqKV::compare_and_swap_answer(answer("{\"type\":\"error\",\"code\":\"22\"}")),
        Err(Error::Payload)
    );
}

#[test]
fn store_payloads_survive_the_wire() {
    let cases: Vec<KVPayload<String, u32>> = vec![
        KVPayload::Read { key: "k".to_string() },
        KVPayload::ReadOk { value: 1 },
        KVPayload::Write { key: "k".to_string(), value: 2 },
        KVPayload::WriteOk,
        KVPayload::CompareAndSet {
            key: "k".to_string(),
            from: 1,
            to: 2,
            create_if_not_exists: None,
        },
        KVPayload::CompareAndSet {
            key: "k".to_string(),
            from: 1,
            to: 2,
            create_if_not_exists: Some(false),
        },
        KVPayload::CompareAndSetOk,
        KVPayload::Error { code: 20, text: "key does not exist".to_string() },
    ];
    for payload in cases {
        let message = Message {
            src: NodeID::from("n1"),
            dst: NodeID::from("seq-kv"),
            body: MessageBody { msg_id: Some(MessageID(1)), in_reply_to: None, payload },
        };
        let line = message.to_line().expect("prints");
        let back: Message<KVPayload<String, u32>> =
            Message::parse(&line).and_then(|m| m.into_payload()).expect("reads");
        assert_eq!(back, message);
    }
}

#[test]
fn unique_ids() {
    let mut app = UniqueIds::new(NodeID::from("n1"), vec![NodeID::from("n1")], 0);
    let mut writer = MessageWriter::new(NodeID::from("n1"));
    for msg_id in [1, 2] {
        let request = Message {
            src: NodeID::from("c1"),
            dst: NodeID::from("n1"),
            body: MessageBody {
                msg_id: Some(MessageID(msg_id)),
                in_reply_to: None,
                payload: UniqueIdsPayload::Generate,
            },
        };
        assert_eq!(app.handle(request, &mut writer, 0), Ok(()));
    }
    let ids: Vec<String> = writer
        .take_lines()
        .iter()
        .map(|line| {
            let reply: Message<UniqueIdsPayload> =
                Message::parse(line).and_then(|m| m.into_payload()).expect("reads");
            match reply.body.payload {
                UniqueIdsPayload::GenerateOk { id } => id,
                other => panic!("no generate_ok: {other:?}"),
            }
        })
        .collect();
    assert_eq!(ids.len(), 2);
    assert_ne!(ids[0], ids[1]);
    for id in &ids {
        assert_eq!(id.chars().count(), 36);
        assert_eq!(id.chars().filter(|c| *c == '-').count(), 4);
    }
}

#[test]
fn unique_ids_answers_under_the_given_identifier() {
    let mut writer = MessageWriter::new(NodeID::from("n1"));
    let request = Message {
        src: NodeID::from("c1"),
        dst: NodeID::from("n1"),
        body: MessageBody {
            msg_id: Some(MessageID(4)),
            in_reply_to: None,
            payload: UniqueIdsPayload::Generate,
        },
    };
    assert_eq!(UniqueIds::answer(&request, "abc".to_string(), &mut writer), Ok(()));
    assert_eq!(
        writer.take_lines(),
        vec![
            "{\"body\":{\"id\":\"abc\",\"in_reply_to\":4,\"msg_id\":0,\"type\":\"generate_ok\"},\"dest\":\"c1\",\"src\":\"n1\"}"
                .to_string()
        ]
    );
    let other = Message {
        body: MessageBody {
            payload: UniqueIdsPayload::GenerateOk { id: "x".to_string() },
            ..request.body
        },
        ..request
    };
    assert_eq!(UniqueIds::answer(&other, "abc".to_string(), &mut writer), Ok(()));
    assert!(writer.take_lines().is_empty());
}
