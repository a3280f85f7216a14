use maelstrom::broadcast::{Broadcast, BroadcastPayload};
use maelstrom::echo::{Echo, EchoPayload};
use maelstrom::g_counter::{CounterPayload, GCounter, Phase};
use maelstrom::json::Json;
use maelstrom::protocol::InitPayload;
use maelstrom::services::seq_kv::KVPayload;
use maelstrom::{event_loop, Dispatch, Error, Event, Message, MessageID, Node, NodeID};

const INIT: &str =
    "{\"src\":\"c1\",\"dest\":\"n1\",\"body\":{\"type\":\"init\",\"msg_id\":1,\"node_id\":\"n1\",\"node_ids\":[\"n1\"]}}";

fn line(text: &str, now: u64) -> Event {
    Event::Line { line: text.to_string(), now }
}

fn counter_line(src: &str, body: &str) -> String {
    format!("{{\"src\":\"{src}\",\"dest\":\"n1\",\"body\":{body}}}")
}

#[test]
fn echo() {
    let events = vec![
        line(INIT, 0),
        line(
            "{\"src\":\"c1\",\"dest\":\"n1\",\"body\":{\"type\":\"echo\",\"msg_id\":2,\"echo\":\"hi\"}}",
            1,
        ),
    ];
    let output = event_loop::<Echo>(&events).expect("runs");
    assert_eq!(
        output,
        vec![
            "{\"body\":{\"in_reply_to\":1,\"msg_id\":0,\"type\":\"init_ok\"},\"dest\":\"c1\",\"src\":\"n1\"}"
                .to_string(),
            "{\"body\":{\"echo\":\"hi\",\"in_reply_to\":2,\"msg_id\":1,\"type\":\"echo_ok\"},\"dest\":\"c1\",\"src\":\"n1\"}"
                .to_string(),
        ]
    );
}

#[test]
fn run_must_begin_with_init() {
    assert_eq!(event_loop::<Echo>(&vec![]), Err(Error::InitNotFirst));
    assert_eq!(event_loop::<Echo>(&vec![Event::Idle { now: 0 }]), Err(Error::InitNotFirst));
    let echo =
        "{\"src\":\"c1\",\"dest\":\"n1\",\"body\":{\"type\":\"echo\",\"msg_id\":2,\"echo\":\"hi\"}}";
    assert_eq!(event_loop::<Echo>(&vec![line(echo, 0)]), Err(Error::InitNotFirst));
    let init_ok = "{\"src\":\"c1\",\"dest\":\"n1\",\"body\":{\"type\":\"init_ok\"}}";
    assert_eq!(event_loop::<Echo>(&vec![line(init_ok, 0)]), Err(Error::InitNotFirst));
    assert_eq!(event_loop::<Echo>(&vec![line("{", 0)]), Err(Error::Malformed));
    assert_eq!(event_loop::<Echo>(&vec![line("[]", 0)]), Err(Error::Envelope));
}

#[test]
fn broadcast_does_not_start_outside_its_cluster() {
    let stranger =
        "{\"src\":\"c1\",\"dest\":\"n9\",\"body\":{\"type\":\"init\",\"msg_id\":1,\"node_id\":\"n9\",\"node_ids\":[\"n1\",\"n2\"]}}";
    assert_eq!(Node::<Broadcast>::start(stranger, 0).err(), Some(Error::Stranger));
    assert!(Node::<Echo>::start(stranger, 0).is_ok());
    assert!(Node::<Broadcast>::start(INIT, 0).is_ok());
}

#[test]
fn start_answers_init_under_the_first_identifier() {
    let mut node = Node::<Echo>::start(INIT, 40).expect("starts");
    assert_eq!(node.last_tick, 40);
    assert!(node.outstanding_rpcs.is_empty());
    assert_eq!(node.writer.node_id(), &NodeID::from("n1"));
    let output = node.take_output();
    assert_eq!(output.len(), 1);
    let reply: Message<InitPayload> =
        Message::parse(&output[0]).and_then(|m| m.into_payload()).expect("reads");
    assert_eq!(reply.body.payload, InitPayload::InitOk);
    assert_eq!(reply.body.msg_id, Some(MessageID(0)));
    assert_eq!(reply.body.in_reply_to, Some(MessageID(1)));
    assert_eq!(reply.dst, NodeID::from("c1"));
    assert!(node.take_output().is_empty());
}

#[test]
fn unknown_payload_is_left_aside() {
    let mut node = Node::<Echo>::start(INIT, 0).expect("starts");
    node.take_output();
    let unknown = "{\"src\":\"c1\",\"dest\":\"n1\",\"body\":{\"type\":\"generate\",\"msg_id\":2}}";
    assert_eq!(node.dispatch(unknown, 1), Ok(Dispatch::Ignored));
    assert!(node.take_output().is_empty());
    let short = "{\"src\":\"c1\",\"dest\":\"n1\",\"body\":{\"type\":\"echo\",\"msg_id\":3}}";
    assert_eq!(node.dispatch(short, 2), Ok(Dispatch::Ignored));
    let echo =
        "{\"src\":\"c1\",\"dest\":\"n1\",\"body\":{\"type\":\"echo\",\"msg_id\":4,\"echo\":\"x\"}}";
    assert_eq!(node.dispatch(echo, 3), Ok(Dispatch::Handled));
    assert_eq!(node.take_output().len(), 1);
}

#[test]
fn broken_line_ends_the_run() {
    let mut node = Node::<Echo>::start(INIT, 0).expect("starts");
    assert_eq!(node.dispatch("not json", 1), Err(Error::Malformed));
    assert_eq!(node.dispatch("{\"src\":\"c1\"}", 1), Err(Error::Envelope));
    let events = vec![line(INIT, 0), line("not json", 1), line(INIT, 2)];
    assert_eq!(event_loop::<Echo>(&events), Err(Error::Malformed));
}

#[test]
fn tick_comes_when_the_period_has_passed() {
    let mut node = Node::<Broadcast>::start(INIT, 100).expect("starts");
    assert_eq!(node.tick_if_due(109), Ok(false));
    assert_eq!(node.last_tick, 100);
    assert_eq!(node.tick_if_due(110), Ok(true));
    assert_eq!(node.last_tick, 110);
    assert_eq!(node.tick_if_due(115), Ok(false));
    assert_eq!(node.tick_if_due(50), Ok(false));
    assert_eq!(node.tick_if_due(120), Ok(true));
}

#[test]
fn broadcast_runs_through_the_event_loop() {
    let init =
        "{\"src\":\"c1\",\"dest\":\"n1\",\"body\":{\"type\":\"init\",\"msg_id\":1,\"node_id\":\"n1\",\"node_ids\":[\"n1\",\"n2\"]}}";
    let broadcast =
        "{\"src\":\"c2\",\"dest\":\"n1\",\"body\":{\"type\":\"broadcast\",\"msg_id\":5,\"message\":42}}";
    let events = vec![
        line(init, 0),
        line(broadcast, 3),
        Event::Idle { now: 13 },
        Event::Idle { now: 103 },
        Event::Idle { now: 113 },
    ];
    let output = event_loop::<Broadcast>(&events).expect("runs");
    let sent: Vec<Message<Json>> =
        output.iter().map(|l| Message::parse(l).expect("envelope")).collect();
    assert_eq!(sent.len(), 3);
    let gossip: Message<BroadcastPayload> = sent[2].clone().into_payload().expect("payload");
    assert_eq!(gossip.dst, NodeID::from("n2"));
    assert_eq!(gossip.body.msg_id, Some(MessageID(2)));
    assert_eq!(gossip.body.payload, BroadcastPayload::BroadcastBatched { messages: vec![42] });
    let answer: Message<BroadcastPayload> = sent[1].clone().into_payload().expect("payload");
    assert_eq!(answer.body.payload, BroadcastPayload::BroadcastOk);
    assert_eq!(answer.body.in_reply_to, Some(MessageID(5)));
}

#[test]
fn answers_go_to_the_caller_and_everything_else_to_handle() {
    let mut node = Node::<GCounter>::start(INIT, 0).expect("starts");
    node.take_output();
    assert_eq!(
        node.dispatch(&counter_line("c2", "{\"type\":\"add\",\"msg_id\":1,\"delta\":3}"), 1),
        Ok(Dispatch::Handled)
    );
    assert_eq!(node.tick_if_due(10), Ok(true));
    assert_eq!(node.app.phase, Phase::Reading { then_swap: true });
    let output = node.take_output();
    let request: Message<KVPayload<String, ()>> =
        Message::parse(&output[1]).and_then(|m| m.into_payload()).expect("reads");
    assert_eq!(request.dst, NodeID::from("seq-kv"));
    assert_eq!(request.body.payload, KVPayload::Read { key: "counter".to_string() });
    assert_eq!(request.body.msg_id, Some(MessageID(2)));
    // While the answer is awaited, other envelopes go to the application.
    assert_eq!(
        node.dispatch(&counter_line("c2", "{\"type\":\"add\",\"msg_id\":2,\"delta\":4}"), 11),
        Ok(Dispatch::Handled)
    );
    assert!(node.outstanding_rpcs.contains(&2));
    // So does an answer to a call that is not outstanding.
    assert_eq!(
        node.dispatch(
            &counter_line("seq-kv", "{\"type\":\"read_ok\",\"in_reply_to\":77,\"value\":1}"),
            12
        ),
        Ok(Dispatch::Handled)
    );
    assert_eq!(node.app.phase, Phase::Reading { then_swap: true });
    // The first answer to the call goes to the caller.
    assert_eq!(
        node.dispatch(
            &counter_line(
                "seq-kv",
                "{\"type\":\"error\",\"in_reply_to\":2,\"code\":20,\"text\":\"key does not exist\"}"
            ),
            13
        ),
        Ok(Dispatch::Response(MessageID(2)))
    );
    assert!(!node.outstanding_rpcs.contains(&2));
    assert_eq!(node.app.phase, Phase::Swapping { delta: 7 });
    // A second answer to the same call finds no caller.
    assert_eq!(
        node.dispatch(
            &counter_line("seq-kv", "{\"type\":\"read_ok\",\"in_reply_to\":2,\"value\":5}"),
            14
        ),
        Ok(Dispatch::Handled)
    );
    assert_eq!(node.app.phase, Phase::Swapping { delta: 7 });
}

#[test]
fn counter_via_seq_kv() {
    let read_of = |output: &Vec<String>| -> u32 {
        let answer: Message<CounterPayload> = Message::parse(output.last().expect("answer"))
            .and_then(|m| m.into_payload())
            .expect("reads");
        match answer.body.payload {
            CounterPayload::ReadOk { value } => value,
            other => panic!("no read_ok: {other:?}"),
        }
    };
    let mut node = Node::<GCounter>::start(INIT, 0).expect("starts");
    node.take_output();
    node.dispatch(&counter_line("c2", "{\"type\":\"add\",\"msg_id\":1,\"delta\":3}"), 1)
        .expect("handled");
    node.dispatch(&counter_line("c2", "{\"type\":\"add\",\"msg_id\":2,\"delta\":4}"), 2)
        .expect("handled");
    node.dispatch(&counter_line("c2", "{\"type\":\"read\",\"msg_id\":3}"), 3).expect("handled");
    assert_eq!(read_of(&node.take_output()), 7);
    assert_eq!(node.tick_if_due(10), Ok(true));
    let output = node.take_output();
    let read: Message<KVPayload<String, ()>> =
        Message::parse(&output[0]).and_then(|m| m.into_payload()).expect("reads");
    assert_eq!(read.body.payload, KVPayload::Read { key: "counter".to_string() });
    let call = read.body.msg_id.expect("identifier").0;
    assert_eq!(
        node.dispatch(
            &counter_line(
                "seq-kv",
                &format!("{{\"type\":\"read_ok\",\"in_reply_to\":{call},\"value\":10}}")
            ),
            11
        ),
        Ok(Dispatch::Response(MessageID(call)))
    );
    let output = node.take_output();
    let cas: Message<KVPayload<String, u32>> =
        Message::parse(&output[0]).and_then(|m| m.into_payload()).expect("reads");
    assert_eq!(cas.dst, NodeID::from("seq-kv"));
    assert_eq!(
        cas.body.payload,
        KVPayload::CompareAndSet {
            key: "counter".to_string(),
            from: 10,
            to: 17,
            create_if_not_exists: Some(true)
        }
    );
    let call = cas.body.msg_id.expect("identifier").0;
    // A tick while the store's word is awaited starts nothing new.
    assert_eq!(node.tick_if_due(21), Ok(true));
    assert!(node.take_output().is_empty());
    node.dispatch(&counter_line("c2", "{\"type\":\"add\",\"msg_id\":4,\"delta\":1}"), 22)
        .expect("handled");
    node.take_output();
    assert_eq!(
        node.dispatch(
            &counter_line("seq-kv", &format!("{{\"type\":\"cas_ok\",\"in_reply_to\":{call}}}")),
            23
        ),
        Ok(Dispatch::Response(MessageID(call)))
    );
    assert_eq!(node.app.last_read, 17);
    assert_eq!(node.app.unconfirmed_delta, 1);
    assert_eq!(node.app.last_read_time, 23);
    assert_eq!(node.app.phase, Phase::Idle);
    node.dispatch(&counter_line("c2", "{\"type\":\"read\",\"msg_id\":5}"), 24).expect("handled");
    assert_eq!(read_of(&node.take_output()), 18);
}

#[test]
fn counter_keeps_its_share_when_the_store_refuses() {
    let mut node = Node::<GCounter>::start(INIT, 0).expect("starts");
    node.dispatch(&counter_line("c2", "{\"type\":\"add\",\"msg_id\":1,\"delta\":5}"), 1)
        .expect("handled");
    assert_eq!(node.tick_if_due(10), Ok(true));
    node.dispatch(
        &counter_line("seq-kv", "{\"type\":\"read_ok\",\"in_reply_to\":2,\"value\":1}"),
        11,
    )
    .expect("received");
    assert_eq!(node.app.phase, Phase::Swapping { delta: 5 });
    assert_eq!(
        node.dispatch(
            &counter_line(
                "seq-kv",
                "{\"type\":\"error\",\"in_reply_to\":3,\"code\":22,\"text\":\"precondition failed\"}"
            ),
            12
        ),
        Ok(Dispatch::Response(MessageID(3)))
    );
    assert_eq!(node.app.phase, Phase::Idle);
    assert_eq!(node.app.unconfirmed_delta, 5);
    assert_eq!(node.app.last_read, 1);
    assert_eq!(node.app.last_read_time, 0);
}

#[test]
fn counter_reads_the_store_every_half_second() {
    let mut node = Node::<GCounter>::start(INIT, 1000).expect("starts");
    node.take_output();
    assert_eq!(node.tick_if_due(1499), Ok(true));
    assert!(node.take_output().is_empty());
    assert_eq!(node.tick_if_due(1509), Ok(true));
    assert_eq!(node.app.phase, Phase::Reading { then_swap: false });
    assert_eq!(node.take_output().len(), 1);
    assert_eq!(
        node.dispatch(
            &counter_line("seq-kv", "{\"type\":\"read_ok\",\"in_reply_to\":1,\"value\":9}"),
            1510
        ),
        Ok(Dispatch::Response(MessageID(1)))
    );
    assert_eq!(node.app.last_read, 9);
    assert_eq!(node.app.last_read_time, 1510);
    assert_eq!(node.app.phase, Phase::Idle);
    assert!(node.take_output().is_empty());
}

#[test]
fn counter_faults() {
    let mut node = Node::<GCounter>::start(INIT, 0).expect("starts");
    node.dispatch(&counter_line("c2", "{\"type\":\"add\",\"msg_id\":1,\"delta\":4294967295}"), 1)
        .expect("handled");
    assert_eq!(
        node.dispatch(&counter_line("c2", "{\"type\":\"add\",\"msg_id\":2,\"delta\":1}"), 2),
        Err(Error::Overflow)
    );
    assert_eq!(node.tick_if_due(10), Ok(true));
    assert_eq!(
        node.dispatch(
            &counter_line("seq-kv", "{\"type\":\"write_ok\",\"in_reply_to\":2}"),
            11
        ),
        Err(Error::UnexpectedReply)
    );
    assert_eq!(
        node.dispatch(
            &counter_line(
                "seq-kv",
                "{\"type\":\"error\",\"in_reply_to\":2,\"code\":13,\"text\":\"crash\"}"
            ),
            12
        ),
        Ok(Dispatch::Ignored)
    );
}

#[test]
fn echo_answers_each_echo() {
    let mut node = Node::<Echo>::start(INIT, 0).expect("starts");
    node.take_output();
    let echo =
        "{\"src\":\"c7\",\"dest\":\"n1\",\"body\":{\"type\":\"echo\",\"msg_id\":9,\"echo\":\"Please echo 35\"}}";
    assert_eq!(node.dispatch(echo, 1), Ok(Dispatch::Handled));
    let echo_ok =
        "{\"src\":\"c7\",\"dest\":\"n1\",\"body\":{\"type\":\"echo_ok\",\"msg_id\":10,\"echo\":\"x\"}}";
    assert_eq!(node.dispatch(echo_ok, 2), Ok(Dispatch::Handled));
    let output = node.take_output();
    assert_eq!(output.len(), 1);
    let reply: Message<EchoPayload> =
        Message::parse(&output[0]).and_then(|m| m.into_payload()).expect("reads");
    assert_eq!(reply.body.payload, EchoPayload::EchoOk { echo: "Please echo 35".to_string() });
    assert_eq!(reply.dst, NodeID::from("c7"));
    assert_eq!(reply.body.in_reply_to, Some(MessageID(9)));
}
