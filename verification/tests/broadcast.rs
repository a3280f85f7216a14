use maelstrom::broadcast::{AckContext, Broadcast, BroadcastPayload};
use maelstrom::json::Json;
use maelstrom::{Message, MessageBody, MessageID, MessageWriter, NodeID};

fn ids(names: &[&str]) -> Vec<NodeID> {
    names.iter().map(|name| NodeID::from(*name)).collect()
}

fn cluster(n: usize) -> Vec<NodeID> {
    (1..=n).map(|i| NodeID::from(format!("n{i}"))).collect()
}

fn node(name: &str, n: usize) -> Broadcast {
    Broadcast::new(NodeID::from(name), cluster(n))
}

fn from(src: &str, msg_id: u32, payload: BroadcastPayload) -> Message<BroadcastPayload> {
    Message {
        src: NodeID::from(src),
        dst: NodeID::from("n1"),
        body: MessageBody { msg_id: Some(MessageID(msg_id)), in_reply_to: None, payload },
    }
}

fn ack(src: &str, in_reply_to: u32) -> Message<BroadcastPayload> {
    Message {
        src: NodeID::from(src),
        dst: NodeID::from("n1"),
        body: MessageBody {
            msg_id: Some(MessageID(900)),
            in_reply_to: Some(MessageID(in_reply_to)),
            payload: BroadcastPayload::BroadcastBatchedOk,
        },
    }
}

fn sent(writer: &mut MessageWriter) -> Vec<Message<BroadcastPayload>> {
    writer
        .take_lines()
        .iter()
        .map(|line| Message::parse(line).and_then(|m| m.into_payload()).expect("reads"))
        .collect()
}

#[test]
fn topology_of_five_nodes_is_a_ring_of_leaders() {
    for (name, next) in [("n1", "n2"), ("n2", "n3"), ("n3", "n4"), ("n4", "n5"), ("n5", "n1")] {
        let app = node(name, 5);
        assert_eq!(app.neighbors(), ids(&[next]));
        assert!(app.always_broadcast());
    }
}

#[test]
fn topology_of_ten_nodes_has_leaders_and_members() {
    let leader = node("n3", 10);
    assert_eq!(leader.neighbors(), ids(&["n5", "n6"]));
    assert!(leader.always_broadcast());
    let member = node("n4", 10);
    assert_eq!(member.neighbors(), ids(&["n3"]));
    assert!(!member.always_broadcast());
    let last_leader = node("n9", 10);
    assert_eq!(last_leader.neighbors(), ids(&["n1", "n2"]));
    assert!(last_leader.always_broadcast());
}

#[test]
fn topology_gives_the_rest_to_the_last_chunk() {
    let last_leader = node("n5", 7);
    assert_eq!(last_leader.neighbors(), ids(&["n1"]));
    assert!(last_leader.always_broadcast());
    let member = node("n7", 7);
    assert_eq!(member.neighbors(), ids(&["n5", "n6"]));
    assert!(!member.always_broadcast());
    let before_last = node("n4", 7);
    assert_eq!(before_last.neighbors(), ids(&["n5", "n6", "n7"]));
    assert!(before_last.always_broadcast());
}

#[test]
fn topology_of_fewer_than_five_nodes_makes_every_node_a_leader() {
    let alone = node("n1", 1);
    assert_eq!(alone.neighbors(), ids(&[]));
    assert!(alone.always_broadcast());
    for (name, next) in [("n1", "n2"), ("n2", "n1")] {
        let app = node(name, 2);
        assert_eq!(app.neighbors(), ids(&[next]));
        assert!(app.always_broadcast());
    }
    for (name, next) in [("n1", "n2"), ("n2", "n3"), ("n3", "n1")] {
        let app = node(name, 3);
        assert_eq!(app.neighbors(), ids(&[next]));
        assert!(app.always_broadcast());
    }
    for (name, next) in [("n1", "n2"), ("n2", "n3"), ("n3", "n4"), ("n4", "n1")] {
        let app = node(name, 4);
        assert_eq!(app.neighbors(), ids(&[next]));
        assert!(app.always_broadcast());
    }
}

#[test]
fn broadcast_from_a_client_is_logged_answered_and_put_aside() {
    let mut app = node("n1", 5);
    let mut writer = MessageWriter::new(NodeID::from("n1"));
    let request = from("c1", 4, BroadcastPayload::Broadcast { message: 42 });
    assert_eq!(app.handle(request, &mut writer, 1000), Ok(()));
    assert_eq!(app.messages_seen(), vec![42]);
    assert_eq!(app.batched_for(&NodeID::from("n2")), Some((1000, vec![42])));
    let out = sent(&mut writer);
    assert_eq!(out.len(), 1);
    assert_eq!(out[0].dst, NodeID::from("c1"));
    assert_eq!(out[0].body.in_reply_to, Some(MessageID(4)));
    assert_eq!(out[0].body.payload, BroadcastPayload::BroadcastOk);
}

#[test]
fn member_does_not_hand_on_what_a_node_sent() {
    let mut app = node("n4", 10);
    let mut writer = MessageWriter::new(NodeID::from("n4"));
    let batch = from("n3", 1, BroadcastPayload::BroadcastBatched { messages: vec![5, 6] });
    assert_eq!(app.handle(batch, &mut writer, 0), Ok(()));
    assert_eq!(app.messages_seen(), vec![5, 6]);
    assert_eq!(app.batched_for(&NodeID::from("n3")), None);
    assert_eq!(sent(&mut writer)[0].body.payload, BroadcastPayload::BroadcastBatchedOk);
    let request = from("c1", 2, BroadcastPayload::Broadcast { message: 7 });
    assert_eq!(app.handle(request, &mut writer, 5), Ok(()));
    assert_eq!(app.batched_for(&NodeID::from("n3")), Some((5, vec![7])));
}

#[test]
fn values_for_one_neighbor_join_one_batch() {
    let mut app = node("n1", 5);
    app.prepare_send_to_neighbor(NodeID::from("n2"), 1, 10);
    app.prepare_send_to_neighbor(NodeID::from("n2"), 2, 50);
    app.prepare_send_to_neighbor(NodeID::from("n9"), 3, 60);
    app.prepare_send_to_neighbor(NodeID::from("n2"), 1, 70);
    assert_eq!(app.batched_for(&NodeID::from("n2")), Some((10, vec![1, 2, 1])));
    assert_eq!(app.batched_for(&NodeID::from("n9")), Some((60, vec![3])));
    assert_eq!(app.batched_for(&NodeID::from("n3")), None);
}

#[test]
fn broadcast_deduplicates() {
    let mut app = node("n2", 5);
    let mut writer = MessageWriter::new(NodeID::from("n2"));
    let batch = || from("n1", 3, BroadcastPayload::BroadcastBatched { messages: vec![7, 7, 7] });
    assert_eq!(app.handle(batch(), &mut writer, 100), Ok(()));
    assert_eq!(app.messages_seen(), vec![7]);
    assert_eq!(app.batched_for(&NodeID::from("n3")), Some((100, vec![7])));
    assert_eq!(app.handle(batch(), &mut writer, 150), Ok(()));
    assert_eq!(app.messages_seen(), vec![7]);
    assert_eq!(app.batched_for(&NodeID::from("n3")), Some((100, vec![7])));
    let out = sent(&mut writer);
    assert_eq!(out.len(), 2);
    assert_eq!(out[0].body.payload, BroadcastPayload::BroadcastBatchedOk);
    assert_eq!(out[1].body.payload, BroadcastPayload::BroadcastBatchedOk);
    assert_eq!(app.tick(&mut writer, 200), Ok(()));
    let out = sent(&mut writer);
    assert_eq!(out.len(), 1);
    assert_eq!(out[0].dst, NodeID::from("n3"));
    assert_eq!(out[0].body.payload, BroadcastPayload::BroadcastBatched { messages: vec![7] });
}

#[test]
fn tick_waits_for_the_coalescing_window() {
    let mut app = node("n1", 5);
    let mut writer = MessageWriter::new(NodeID::from("n1"));
    app.prepare_send_to_neighbor(NodeID::from("n2"), 1, 1000);
    app.prepare_send_to_neighbor(NodeID::from("n2"), 2, 1090);
    assert_eq!(app.tick(&mut writer, 1099), Ok(()));
    assert!(sent(&mut writer).is_empty());
    assert_eq!(app.batched_for(&NodeID::from("n2")), Some((1000, vec![1, 2])));
    assert_eq!(app.unacked_len(), 0);
    assert_eq!(app.tick(&mut writer, 1100), Ok(()));
    let out = sent(&mut writer);
    assert_eq!(out.len(), 1);
    assert_eq!(out[0].src, NodeID::from("n1"));
    assert_eq!(out[0].dst, NodeID::from("n2"));
    assert_eq!(out[0].body.msg_id, Some(MessageID(0)));
    assert_eq!(out[0].body.in_reply_to, None);
    assert_eq!(out[0].body.payload, BroadcastPayload::BroadcastBatched { messages: vec![1, 2] });
    assert_eq!(app.batched_for(&NodeID::from("n2")), None);
    assert_eq!(
        app.unacked_for(&NodeID::from("n2"), &vec![1, 2]),
        Some(AckContext { message_id: MessageID(0), time_sent: 1100 })
    );
}

#[test]
fn tick_sends_only_the_ripe_batches() {
    let mut app = node("n1", 5);
    let mut writer = MessageWriter::new(NodeID::from("n1"));
    app.prepare_send_to_neighbor(NodeID::from("n2"), 1, 0);
    app.prepare_send_to_neighbor(NodeID::from("n3"), 2, 50);
    app.prepare_send_to_neighbor(NodeID::from("n4"), 3, 10);
    assert_eq!(app.tick(&mut writer, 110), Ok(()));
    let out = sent(&mut writer);
    assert_eq!(out.len(), 2);
    assert_eq!(out[0].dst, NodeID::from("n2"));
    assert_eq!(out[1].dst, NodeID::from("n4"));
    assert_eq!(app.batched_for(&NodeID::from("n3")), Some((50, vec![2])));
    assert_eq!(app.batched_for(&NodeID::from("n2")), None);
    assert_eq!(app.unacked_len(), 2);
}

#[test]
fn a_clock_that_ran_backwards_ages_nothing() {
    let mut app = node("n1", 5);
    let mut writer = MessageWriter::new(NodeID::from("n1"));
    app.prepare_send_to_neighbor(NodeID::from("n2"), 1, 1000);
    assert_eq!(app.tick(&mut writer, 10), Ok(()));
    assert!(sent(&mut writer).is_empty());
}

#[test]
fn retransmission() {
    let mut app = node("n1", 5);
    let mut writer = MessageWriter::new(NodeID::from("n1"));
    let n2 = NodeID::from("n2");
    assert_eq!(app.batched_send_to_neighbor(&mut writer, n2.clone(), vec![4, 5], 1000), Ok(()));
    assert_eq!(sent(&mut writer).len(), 1);
    assert_eq!(app.tick(&mut writer, 1499), Ok(()));
    assert!(sent(&mut writer).is_empty());
    assert_eq!(
        app.unacked_for(&n2, &vec![4, 5]),
        Some(AckContext { message_id: MessageID(0), time_sent: 1000 })
    );
    assert_eq!(app.tick(&mut writer, 1500), Ok(()));
    let out = sent(&mut writer);
    assert_eq!(out.len(), 1);
    assert_eq!(out[0].dst, n2);
    assert_eq!(out[0].body.msg_id, Some(MessageID(1)));
    assert_eq!(out[0].body.payload, BroadcastPayload::BroadcastBatched { messages: vec![4, 5] });
    assert_eq!(
        app.unacked_for(&n2, &vec![4, 5]),
        Some(AckContext { message_id: MessageID(1), time_sent: 1500 })
    );
    assert_eq!(app.tick(&mut writer, 1999), Ok(()));
    assert!(sent(&mut writer).is_empty());
    assert_eq!(app.tick(&mut writer, 2000), Ok(()));
    assert_eq!(sent(&mut writer)[0].body.msg_id, Some(MessageID(2)));
    assert_eq!(app.handle(ack("n2", 0), &mut writer, 2001), Ok(()));
    assert_eq!(app.unacked_len(), 1);
    assert_eq!(app.handle(ack("n3", 2), &mut writer, 2002), Ok(()));
    assert_eq!(app.unacked_len(), 1);
    assert_eq!(app.handle(ack("n2", 2), &mut writer, 2003), Ok(()));
    assert_eq!(app.unacked_len(), 0);
    assert_eq!(app.unacked_for(&n2, &vec![4, 5]), None);
    assert_eq!(app.tick(&mut writer, 9000), Ok(()));
    assert!(sent(&mut writer).is_empty());
}

#[test]
fn acknowledgement_ends_the_wait_of_its_batch_only() {
    let mut app = node("n1", 5);
    let mut writer = MessageWriter::new(NodeID::from("n1"));
    let n2 = NodeID::from("n2");
    assert_eq!(app.batched_send_to_neighbor(&mut writer, n2.clone(), vec![1], 0), Ok(()));
    assert_eq!(app.batched_send_to_neighbor(&mut writer, n2.clone(), vec![2], 0), Ok(()));
    assert_eq!(app.batched_send_to_neighbor(&mut writer, n2.clone(), vec![1], 7), Ok(()));
    assert_eq!(app.unacked_len(), 2);
    assert_eq!(
        app.unacked_for(&n2, &vec![1]),
        Some(AckContext { message_id: MessageID(2), time_sent: 7 })
    );
    assert_eq!(app.handle(ack("n2", 1), &mut writer, 8), Ok(()));
    assert_eq!(app.unacked_for(&n2, &vec![2]), None);
    assert_eq!(
        app.unacked_for(&n2, &vec![1]),
        Some(AckContext { message_id: MessageID(2), time_sent: 7 })
    );
    let without = Message {
        body: MessageBody { in_reply_to: None, ..ack("n2", 2).body },
        ..ack("n2", 2)
    };
    assert_eq!(app.handle(without, &mut writer, 9), Ok(()));
    assert_eq!(app.unacked_len(), 1);
    assert!(sent(&mut writer).len() == 3);
}

#[test]
fn read_is_answered_with_what_was_seen() {
    let mut app = node("n1", 5);
    let mut writer = MessageWriter::new(NodeID::from("n1"));
    for (i, value) in [3, 1, 3, 2].into_iter().enumerate() {
        let request = from("c1", i as u32, BroadcastPayload::Broadcast { message: value });
        assert_eq!(app.handle(request, &mut writer, 0), Ok(()));
    }
    sent(&mut writer);
    assert_eq!(app.handle(from("c2", 9, BroadcastPayload::Read), &mut writer, 0), Ok(()));
    let out = sent(&mut writer);
    assert_eq!(out.len(), 1);
    assert_eq!(out[0].dst, NodeID::from("c2"));
    assert_eq!(out[0].body.in_reply_to, Some(MessageID(9)));
    assert_eq!(out[0].body.payload, BroadcastPayload::ReadOk { messages: vec![3, 1, 2] });
}

#[test]
fn topology_is_answered_and_ignored() {
    let mut app = node("n1", 5);
    let mut writer = MessageWriter::new(NodeID::from("n1"));
    let proposal = Json::Object(vec![(
        "n1".to_string(),
        Json::List(vec![Json::Text("n4".to_string()), Json::Text("n5".to_string())]),
    )]);
    let request = from("c1", 1, BroadcastPayload::Topology { topology: proposal });
    assert_eq!(app.handle(request, &mut writer, 0), Ok(()));
    assert_eq!(app.neighbors(), ids(&["n2"]));
    assert!(app.always_broadcast());
    assert!(app.messages_seen().is_empty());
    let out = sent(&mut writer);
    assert_eq!(out.len(), 1);
    assert_eq!(out[0].body.payload, BroadcastPayload::TopologyOk);
    assert_eq!(out[0].body.in_reply_to, Some(MessageID(1)));
}

#[test]
fn answers_of_others_are_not_answered() {
    let mut app = node("n1", 5);
    let mut writer = MessageWriter::new(NodeID::from("n1"));
    for payload in [
        BroadcastPayload::BroadcastOk,
        BroadcastPayload::ReadOk { messages: vec![1] },
        BroadcastPayload::TopologyOk,
    ] {
        assert_eq!(app.handle(from("n2", 1, payload), &mut writer, 0), Ok(()));
    }
    assert!(sent(&mut writer).is_empty());
    assert!(app.messages_seen().is_empty());
}

#[test]
fn broadcast_payloads_survive_the_wire() {
    let topology = Json::Object(vec![("n1".to_string(), Json::List(vec![]))]);
    let cases = vec![
        (
            BroadcastPayload::Broadcast { message: 8 },
            "{\"in_reply_to\":null,\"message\":8,\"msg_id\":null,\"type\":\"broadcast\"}",
        ),
        (
            BroadcastPayload::BroadcastOk,
            "{\"in_reply_to\":null,\"msg_id\":null,\"type\":\"broadcast_ok\"}",
        ),
        (
            BroadcastPayload::BroadcastBatched { messages: vec![1, 2] },
            "{\"in_reply_to\":null,\"messages\":[1,2],\"msg_id\":null,\"type\":\"broadcast_batched\"}",
        ),
        (
            BroadcastPayload::BroadcastBatchedOk,
            "{\"in_reply_to\":null,\"msg_id\":null,\"type\":\"broadcast_batched_ok\"}",
        ),
        (
            BroadcastPayload::Read,
            "{\"in_reply_to\":null,\"msg_id\":null,\"type\":\"read\"}",
        ),
        (
            BroadcastPayload::ReadOk { messages: vec![] },
            "{\"in_reply_to\":null,\"messages\":[],\"msg_id\":null,\"type\":\"read_ok\"}",
        ),
        (
            BroadcastPayload::Topology { topology },
            "{\"in_reply_to\":null,\"msg_id\":null,\"topology\":{\"n1\":[]},\"type\":\"topology\"}",
        ),
        (
            BroadcastPayload::TopologyOk,
            "{\"in_reply_to\":null,\"msg_id\":null,\"type\":\"topology_ok\"}",
        ),
    ];
    for (payload, body) in cases {
        let message = Message {
            src: NodeID::from("n1"),
            dst: NodeID::from("n2"),
            body: MessageBody { msg_id: None, in_reply_to: None, payload },
        };
        let line = message.to_line().expect("prints");
        assert_eq!(line, format!("{{\"body\":{body},\"dest\":\"n2\",\"src\":\"n1\"}}"));
        let back: Message<BroadcastPayload> =
            Message::parse(&line).and_then(|m| m.into_payload()).expect("reads");
        assert_eq!(back, message);
    }
}

#[test]
fn broadcast_single_value_propagates() {
    let names = ["n1", "n2", "n3", "n4", "n5"];
    let mut apps: Vec<Broadcast> = names.iter().map(|name| node(name, 5)).collect();
    let mut writers: Vec<MessageWriter> =
        names.iter().map(|name| MessageWriter::new(NodeID::from(*name))).collect();
    let request = from("c1", 1, BroadcastPayload::Broadcast { message: 42 });
    assert_eq!(apps[0].handle(request, &mut writers[0], 0), Ok(()));
    let mut now = 0;
    while now <= 600 {
        for i in 0..names.len() {
            assert_eq!(apps[i].tick(&mut writers[i], now), Ok(()));
        }
        let mut in_flight: Vec<Message<BroadcastPayload>> = Vec::new();
        for writer in writers.iter_mut() {
            in_flight.extend(sent(writer));
        }
        while let Some(message) = in_flight.pop() {
            if let Some(to) = names.iter().position(|name| NodeID::from(*name) == message.dst) {
                assert_eq!(apps[to].handle(message, &mut writers[to], now), Ok(()));
                in_flight.extend(sent(&mut writers[to]));
            }
        }
        now += 10;
    }
    for app in &apps {
        assert_eq!(app.messages_seen(), vec![42]);
        assert_eq!(app.unacked_len(), 0);
    }
}

#[test]
fn broadcast_converges_with_members_and_losses() {
    let names: Vec<String> = (1..=10).map(|i| format!("n{i}")).collect();
    let mut apps: Vec<Broadcast> = names.iter().map(|name| node(name, 10)).collect();
    let mut writers: Vec<MessageWriter> =
        names.iter().map(|name| MessageWriter::new(NodeID::from(name.clone()))).collect();
    // Three clients hand three values to a leader, a member and the last node.
    for (to, value) in [(0, 11), (3, 22), (9, 33)] {
        let request = from("c1", value, BroadcastPayload::Broadcast { message: value });
        assert_eq!(apps[to].handle(request, &mut writers[to], 0), Ok(()));
    }
    let mut lost_once: Vec<(NodeID, NodeID, Vec<u32>)> = Vec::new();
    let mut now = 0;
    while now <= 6000 {
        for i in 0..names.len() {
            assert_eq!(apps[i].tick(&mut writers[i], now), Ok(()));
        }
        let mut in_flight: Vec<Message<BroadcastPayload>> = Vec::new();
        for writer in writers.iter_mut() {
            in_flight.extend(sent(writer));
        }
        while let Some(message) = in_flight.pop() {
            // The first sending of every batch is lost.
            if let BroadcastPayload::BroadcastBatched { messages } = &message.body.payload {
                let key = (message.src.clone(), message.dst.clone(), messages.clone());
                if !lost_once.contains(&key) {
                    lost_once.push(key);
                    continue;
                }
            }
            if let Some(to) = names.iter().position(|name| NodeID::from(name.clone()) == message.dst)
            {
                assert_eq!(apps[to].handle(message, &mut writers[to], now), Ok(()));
                in_flight.extend(sent(&mut writers[to]));
            }
        }
        now += 10;
    }
    for app in &apps {
        let mut seen = app.messages_seen();
        seen.sort();
        assert_eq!(seen, vec![11, 22, 33]);
        assert_eq!(app.unacked_len(), 0);
    }
}

#[test]
fn handle_message_hands_a_new_value_to_every_neighbor_once() {
    let mut app = node("n9", 10);
    assert_eq!(app.neighbors(), ids(&["n1", "n2"]));
    let peer = from("n7", 1, BroadcastPayload::BroadcastBatched { messages: vec![] });
    app.handle_message(&peer, 5, 10);
    app.handle_message(&peer, 5, 20);
    app.handle_message(&peer, 6, 30);
    assert_eq!(app.messages_seen(), vec![5, 6]);
    assert_eq!(app.batched_for(&NodeID::from("n1")), Some((10, vec![5, 6])));
    assert_eq!(app.batched_for(&NodeID::from("n2")), Some((10, vec![5, 6])));
    assert_eq!(app.batched_for(&NodeID::from("n10")), None);
}
