use ibc_gateway::channel::{
    get_amount_for_denom, ChannelConfig, Coin, CwIbcConnection, Packet, PacketTimeout, SendHandle,
    TransportHost,
};
use ibc_gateway::codec::{decode_message, encode_message};
use ibc_gateway::dispatch::{
    check_for_duplicates, filter_routable_messages, filter_verifiable_messages, flat_unzip,
    group_by_status, into_route_events, into_verify_events, route, route_incoming_messages,
    route_outgoing_messages, verify,
};
use ibc_gateway::events::{to_event, GatewayEvent};
use ibc_gateway::msg::ConfigResponse;
use ibc_gateway::types::{GatewayError, Message, VerificationStatus};

fn msg(cc_id: u64, source_nid: u64, dest_nid: u64, payload: Vec<u8>) -> Message {
    Message { cc_id, source_nid, dest_nid, payload }
}

fn gateway() -> CwIbcConnection {
    CwIbcConnection {
        configs: vec![(
            7,
            ChannelConfig {
                channel_id: 1,
                port_id: 11,
                destination_channel_id: 2,
                destination_port_id: 12,
                light_client_id: 9,
                timeout_height: 5000,
            },
        )],
        counterparty_nids: vec![(3, 7)],
        pending: Vec::new(),
        host: TransportHost {
            next_sequences: Vec::new(),
            timeout_heights: vec![(1, 9000)],
            now: 1000,
        },
    }
}

#[test]
fn scenario_mixed_statuses_split_into_call_and_unfit() {
    let groups = vec![
        (VerificationStatus::SucceededOnChain, vec![msg(1, 3, 4, vec![0xaa])]),
        (VerificationStatus::FailedOnChain, vec![msg(2, 3, 4, vec![0xbb])]),
    ];
    let (call, events) = route(groups);
    assert_eq!(call.len(), 1);
    assert_eq!(call[0].cc_id, 1);
    assert_eq!(events.len(), 2);
    assert!(matches!(&events[0], GatewayEvent::Routing { msg } if msg.cc_id == 1));
    assert!(matches!(&events[1], GatewayEvent::UnfitForRouting { msg } if msg.cc_id == 2));
}

#[test]
fn scenario_duplicate_ids_reject_whole_batch() {
    let batch = vec![msg(5, 3, 4, vec![1]), msg(5, 3, 4, vec![2])];
    let r = route_incoming_messages(batch);
    assert!(matches!(r, Err(GatewayError::DuplicateMessageIds)));
}

#[test]
fn scenario_missing_config_fails_without_pending_record() {
    let mut conn = gateway();
    let r = conn.send_message(99, msg(1, 3, 4, vec![7]));
    assert!(matches!(r, Err(GatewayError::ConfigNotFound)));
    assert!(conn.pending.is_empty());
}

#[test]
fn scenario_malformed_payload_fails_with_decode_error() {
    let conn = gateway();
    let packet = Packet {
        channel_id: 2,
        sequence: 0,
        payload: vec![1, 2, 3],
        timeout: PacketTimeout::with_both(1, 2),
    };
    let r = conn.do_packet_receive(&packet);
    assert!(matches!(r, Err(GatewayError::DecodeError)));
}

#[test]
fn scenario_unexpected_ack_fails() {
    let mut conn = gateway();
    let r = conn.write_acknowledgement(2, 5, vec![1]);
    assert!(matches!(r, Err(GatewayError::UnknownPendingPacket)));
}

#[test]
fn duplicates_detected_and_distinct_batch_kept() {
    let distinct = vec![msg(1, 3, 4, vec![]), msg(2, 3, 4, vec![])];
    let kept = check_for_duplicates(distinct).expect("distinct ids must pass");
    assert_eq!(kept.len(), 2);
    assert_eq!(kept[0].cc_id, 1);
    assert_eq!(kept[1].cc_id, 2);
    let dup = vec![msg(1, 3, 4, vec![]), msg(1, 5, 6, vec![])];
    assert!(matches!(check_for_duplicates(dup), Err(GatewayError::DuplicateMessageIds)));
}

#[test]
fn codec_round_trip_and_exact_bytes() {
    let m = msg(0x0102030405060708, 3, 4, vec![0xde, 0xad]);
    let bytes = encode_message(&m);
    let mut expected = vec![1u8, 2, 3, 4, 5, 6, 7, 8];
    expected.extend_from_slice(&[0, 0, 0, 0, 0, 0, 0, 3]);
    expected.extend_from_slice(&[0, 0, 0, 0, 0, 0, 0, 4]);
    expected.extend_from_slice(&[0, 0, 0, 0, 0, 0, 0, 2]);
    expected.extend_from_slice(&[0xde, 0xad]);
    assert_eq!(bytes, expected);
    let back = decode_message(&bytes).expect("own encoding must decode");
    assert_eq!(back.cc_id, m.cc_id);
    assert_eq!(back.source_nid, m.source_nid);
    assert_eq!(back.dest_nid, m.dest_nid);
    assert_eq!(back.payload, m.payload);
}

#[test]
fn decode_rejects_truncated_and_padded_buffers() {
    let m = msg(1, 2, 3, vec![9, 9, 9]);
    let mut bytes = encode_message(&m);
    bytes.pop();
    assert!(matches!(decode_message(&bytes), Err(GatewayError::DecodeError)));
    let mut padded = encode_message(&m);
    padded.push(0);
    assert!(matches!(decode_message(&padded), Err(GatewayError::DecodeError)));
    assert!(matches!(decode_message(&Vec::new()), Err(GatewayError::DecodeError)));
}

#[test]
fn sequences_strictly_increase_per_channel() {
    let mut conn = gateway();
    let h1 = conn.send_message(7, msg(1, 3, 4, vec![1])).expect("configured send");
    let h2 = conn.send_message(7, msg(2, 3, 4, vec![2])).expect("configured send");
    let s1 = match h1 {
        SendHandle::PacketDispatched { ref packet } => packet.sequence,
        _ => panic!("dispatch expected"),
    };
    let s2 = match h2 {
        SendHandle::PacketDispatched { ref packet } => packet.sequence,
        _ => panic!("dispatch expected"),
    };
    assert_eq!(s1, 0);
    assert_eq!(s2, 1);
    assert!(s2 > s1);
}

#[test]
fn ack_resolves_at_most_once() {
    let mut conn = gateway();
    let h = conn.send_message(7, msg(1, 3, 4, vec![1])).expect("configured send");
    let packet = match h {
        SendHandle::PacketDispatched { packet } => packet,
        _ => panic!("dispatch expected"),
    };
    assert_eq!(conn.pending.len(), 1);
    let first = conn.write_acknowledgement(packet.channel_id, packet.sequence, vec![0x01]);
    match first {
        Ok(SendHandle::AckWritten { packet: acked, ack }) => {
            assert_eq!(acked.sequence, packet.sequence);
            assert_eq!(ack, vec![0x01]);
        }
        _ => panic!("first ack must resolve"),
    }
    let second = conn.write_acknowledgement(packet.channel_id, packet.sequence, vec![0x01]);
    assert!(matches!(second, Err(GatewayError::UnknownPendingPacket)));
}

#[test]
fn outbound_packet_carries_encoding_and_both_timeout_bounds() {
    let mut conn = gateway();
    let m = msg(1, 3, 4, vec![0x55]);
    let encoded = encode_message(&m);
    let h = conn.send_message(7, m).expect("configured send");
    let packet = match h {
        SendHandle::PacketDispatched { packet } => packet,
        _ => panic!("dispatch expected"),
    };
    assert_eq!(packet.channel_id, 2);
    assert_eq!(packet.payload, encoded);
    assert_eq!(packet.timeout.height_bound, 9000);
    assert_eq!(packet.timeout.timestamp_bound, 1300);
    assert_eq!(packet.timeout.latest(), 9000);
}

#[test]
fn inbound_packet_routes_single_verified_message() {
    let conn = gateway();
    let m = msg(42, 3, 4, vec![6, 6]);
    let packet = Packet {
        channel_id: 2,
        sequence: 0,
        payload: encode_message(&m),
        timeout: PacketTimeout::with_both(1, 2),
    };
    let batch = conn.do_packet_receive(&packet).expect("well-formed payload");
    assert_eq!(batch.call.len(), 1);
    assert_eq!(batch.call[0].cc_id, 42);
    assert_eq!(batch.events.len(), 1);
    assert!(matches!(&batch.events[0], GatewayEvent::Routing { msg } if msg.cc_id == 42));
}

#[test]
fn route_outgoing_sends_each_message_and_reports_routing() {
    let mut conn = gateway();
    let batch = vec![msg(1, 3, 4, vec![1]), msg(2, 3, 4, vec![2])];
    let (handles, events) = route_outgoing_messages(&mut conn, batch).expect("resolvable batch");
    assert_eq!(handles.len(), 2);
    assert_eq!(events.len(), 2);
    assert!(matches!(&events[0], GatewayEvent::Routing { msg } if msg.cc_id == 1));
    assert!(matches!(&events[1], GatewayEvent::Routing { msg } if msg.cc_id == 2));
    assert_eq!(conn.pending.len(), 2);
    let unknown_source = vec![msg(9, 8, 4, vec![])];
    let r = route_outgoing_messages(&mut conn, unknown_source);
    assert!(matches!(r, Err(GatewayError::ConfigNotFound)));
    assert_eq!(conn.pending.len(), 2);
}

#[test]
fn verification_mode_forwards_unverified_and_reports_the_rest() {
    let groups = vec![
        (VerificationStatus::Unverified, vec![msg(1, 3, 4, vec![])]),
        (VerificationStatus::InProgress, vec![msg(2, 3, 4, vec![])]),
        (VerificationStatus::SucceededOnChain, vec![msg(3, 3, 4, vec![])]),
        (VerificationStatus::FailedOnChain, vec![msg(4, 3, 4, vec![])]),
    ];
    let (call, events) = verify(groups);
    assert_eq!(call.len(), 1);
    assert_eq!(call[0].cc_id, 1);
    assert!(matches!(&events[0], GatewayEvent::Verifying { msg } if msg.cc_id == 1));
    assert!(matches!(&events[1], GatewayEvent::Verifying { msg } if msg.cc_id == 2));
    assert!(matches!(&events[2], GatewayEvent::AlreadyVerified { msg } if msg.cc_id == 3));
    assert!(matches!(&events[3], GatewayEvent::AlreadyRejected { msg } if msg.cc_id == 4));
}

#[test]
fn filters_keep_exactly_the_eligible_statuses() {
    let msgs = vec![msg(1, 3, 4, vec![])];
    assert_eq!(filter_routable_messages(VerificationStatus::SucceededOnChain, &msgs).len(), 1);
    assert_eq!(filter_routable_messages(VerificationStatus::InProgress, &msgs).len(), 0);
    assert_eq!(filter_verifiable_messages(VerificationStatus::NotFound, &msgs).len(), 1);
    assert_eq!(filter_verifiable_messages(VerificationStatus::SucceededOnChain, &msgs).len(), 0);
    let route_events = into_route_events(VerificationStatus::FailedToVerify, msgs);
    assert!(matches!(&route_events[0], GatewayEvent::UnfitForRouting { .. }));
    let verify_events =
        into_verify_events(VerificationStatus::FailedToVerify, vec![msg(1, 3, 4, vec![])]);
    assert!(matches!(&verify_events[0], GatewayEvent::Verifying { .. }));
}

#[test]
fn grouping_is_sorted_by_status_and_keeps_arrival_order() {
    let pairs = vec![
        (msg(1, 3, 4, vec![]), VerificationStatus::FailedOnChain),
        (msg(2, 3, 4, vec![]), VerificationStatus::SucceededOnChain),
        (msg(3, 3, 4, vec![]), VerificationStatus::SucceededOnChain),
        (msg(4, 3, 4, vec![]), VerificationStatus::Unverified),
    ];
    let groups = group_by_status(&pairs);
    assert_eq!(groups.len(), 3);
    assert_eq!(groups[0].0, VerificationStatus::Unverified);
    assert_eq!(groups[0].1.len(), 1);
    assert_eq!(groups[0].1[0].cc_id, 4);
    assert_eq!(groups[1].0, VerificationStatus::SucceededOnChain);
    assert_eq!(groups[1].1[0].cc_id, 2);
    assert_eq!(groups[1].1[1].cc_id, 3);
    assert_eq!(groups[2].0, VerificationStatus::FailedOnChain);
    assert_eq!(groups[2].1[0].cc_id, 1);
    let (call, events) = route(groups);
    assert_eq!(call.len(), 2);
    assert_eq!(call[0].cc_id, 2);
    assert_eq!(call[1].cc_id, 3);
    assert_eq!(events.len(), 4);
}

#[test]
fn flat_unzip_flattens_in_order() {
    let pairs = vec![
        (vec![1u32, 2], vec!["a"]),
        (vec![], vec!["b", "c"]),
        (vec![3], vec![]),
    ];
    let (nums, names) = flat_unzip(pairs);
    assert_eq!(nums, vec![1, 2, 3]);
    assert_eq!(names, vec!["a", "b", "c"]);
}

#[test]
fn events_render_names_and_attributes_for_the_host() {
    let e = GatewayEvent::Routing { msg: msg(7, 3, 4, vec![]) };
    let rendered = to_event(&e);
    let expected = cosmwasm_std::Event::new("routing")
        .add_attribute("cc_id", "7")
        .add_attribute("source_nid", "3")
        .add_attribute("dest_nid", "4");
    assert_eq!(rendered, expected);
    assert_eq!(e.event_name(), "routing");
    let unfit = GatewayEvent::UnfitForRouting { msg: msg(7, 3, 4, vec![]) };
    assert_eq!(unfit.event_name(), "unfit_for_routing");
    assert_eq!(to_event(&unfit).ty, "unfit_for_routing");
}

#[test]
fn config_response_renders_identifiers() {
    let cfg = ChannelConfig {
        channel_id: 1,
        port_id: 11,
        destination_channel_id: 2,
        destination_port_id: 12,
        light_client_id: 9,
        timeout_height: 5000,
    };
    let r = ConfigResponse::from_config(&cfg);
    assert_eq!(r.channel_id, "1");
    assert_eq!(r.port, "11");
    assert_eq!(r.destination_channel_id, "2");
    assert_eq!(r.destination_port_id, "12");
    assert_eq!(r.light_client_id, "9");
    assert_eq!(r.timeout_height, 5000);
}

#[test]
fn amount_for_denom_takes_first_match_or_zero() {
    let funds = vec![
        Coin { denom: 1, amount: 10 },
        Coin { denom: 2, amount: 20 },
        Coin { denom: 1, amount: 30 },
    ];
    assert_eq!(get_amount_for_denom(&funds, 1), 10);
    assert_eq!(get_amount_for_denom(&funds, 2), 20);
    assert_eq!(get_amount_for_denom(&funds, 3), 0);
}

#[test]
fn request_packet_resolves_config_and_carries_bounds() {
    let conn = gateway();
    let m = msg(1, 3, 4, vec![0x11]);
    let p = conn.create_request_packet(7, 777, &m).expect("configured nid");
    assert_eq!(p.channel_id, 2);
    assert_eq!(p.sequence, 0);
    assert_eq!(p.payload, encode_message(&m));
    assert_eq!(p.timeout.height_bound, 777);
    assert_eq!(p.timeout.timestamp_bound, 1300);
    assert!(matches!(
        conn.create_request_packet(8, 777, &m),
        Err(GatewayError::ConfigNotFound)
    ));
}
