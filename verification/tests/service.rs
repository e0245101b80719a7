use osistack::channel::{NChannel, SnChannel};
use osistack::dl::SNUnitDataRequest;
use osistack::n::clnp::{ClnpError, DeliverOutcome, Pdu, Service};
use osistack::n::{NUnitDataIndication, Nsap, Qos};

#[test]
fn it_works() {
    let result = osistack::add(2, 2);
    assert_eq!(result, 4);
}

const MAC_A: [u8; 6] = [0xAA, 0xBB, 0xCC, 0xDD, 0xEE, 0xFF];
const MAC_B: [u8; 6] = [0x11, 0x22, 0x33, 0x44, 0x55, 0x66];

fn fresh_service() -> Service {
    let outbound = SnChannel::new(7);
    let inbound = NChannel::new(7);
    let mut ns = Service::new(String::from("A"), outbound, inbound);
    ns.add_serviced_subnet_nsap(1, 1, MAC_A);
    ns.add_known_host(String::from("B"), "11:22:33:44:55:66").expect("well-formed address");
    ns
}

#[test]
fn send_inactive_frame_to_known_host() {
    // service A (49.1.1.AA:BB:CC:DD:EE:FF) registers known host B and sends
    let mut ns = fresh_service();
    ns.n_unitdata_request("B", &Qos {}, b"hello").expect("send");
    let frame = ns.next_outbound().expect("one outbound frame");
    assert_eq!(frame.sn_source_address, MAC_A);
    assert_eq!(frame.sn_destination_address, MAC_B);
    assert_eq!(frame.sn_userdata[0], 0x00);
    assert_eq!(&frame.sn_userdata[1..], b"hello");
    assert!(ns.next_outbound().is_none());
}

#[test]
fn send_fails_without_configuration() {
    let outbound = SnChannel::new(7);
    let inbound = NChannel::new(7);
    let mut empty = Service::new(String::from("A"), outbound, inbound);
    // no serviced address yet
    assert!(matches!(
        empty.n_unitdata_request("B", &Qos {}, b"x"),
        Err(ClnpError::Configuration)
    ));
    empty.add_serviced_subnet_nsap(1, 1, MAC_A);
    // destination unknown
    assert!(matches!(
        empty.n_unitdata_request("B", &Qos {}, b"x"),
        Err(ClnpError::Configuration)
    ));
}

#[test]
fn add_known_host_rejects_malformed_address() {
    let mut ns = fresh_service();
    assert!(matches!(
        ns.add_known_host(String::from("C"), "zz:zz"),
        Err(ClnpError::Configuration)
    ));
    assert!(ns.resolve_nsap("C").is_none());
    // the directory still resolves what was registered well-formed
    let b = ns.resolve_nsap("B").expect("B is known");
    assert_eq!(b.local_address, MAC_B);
    assert_eq!((b.authority, b.area, b.sub_area), (49, 1, 1));
}

#[test]
fn resolve_replaces_on_reregistration() {
    let mut ns = fresh_service();
    ns.add_known_host(String::from("B"), "01:02:03:04:05:06").expect("well-formed");
    let b = ns.resolve_nsap("B").expect("still known");
    assert_eq!(b.local_address, [1, 2, 3, 4, 5, 6]);
}

#[test]
fn echo_correlation_round_trip() {
    let mut ns = fresh_service();
    // sending an echo request queues one frame and records one token
    ns.echo_request(Some(String::from("B")), None, Some(0), None, &Qos {}).expect("echo");
    let frame = ns.next_outbound().expect("echo request frame");
    assert_eq!(frame.sn_source_address, MAC_A);
    assert_eq!(frame.sn_destination_address, MAC_B);
    // the frame holds an Echo Request whose data part is the inner PDU
    let inner_bytes = match Pdu::from_buf(&frame.sn_userdata).expect("decode outer") {
        Pdu::EchoRequestPDU { data, .. } => data.expect("outer data").data,
        _ => panic!("expected an echo request"),
    };
    // the far end replies with exactly those bytes; delivering them
    // correlates the response and removes the entry
    let outcome = ns.n_unitdata_indication(4_000_000_000_000, MAC_B, MAC_A, &Qos {}, &inner_bytes);
    match outcome {
        DeliverOutcome::EchoCorrelated { rtt_ms } => assert!(rtt_ms >= 0),
        other => panic!("expected a correlated echo, got {:?}", other),
    }
    // the same response again finds no entry: benign stray
    let again = ns.n_unitdata_indication(4_000_000_000_001, MAC_B, MAC_A, &Qos {}, &inner_bytes);
    assert!(matches!(again, DeliverOutcome::StrayResponse));
}

#[test]
fn stray_response_leaves_table_unchanged() {
    let mut ns = fresh_service();
    let a = Nsap { authority: 49, area: 1, sub_area: 1, local_address: MAC_A };
    let b = Nsap { authority: 49, area: 1, sub_area: 1, local_address: MAC_B };
    // one pending request under a fixed token
    ns.echo_request_at(0x1234, 1_000, &a, &b, &None).expect("echo");
    let _ = ns.next_outbound().expect("frame");
    // a response carrying an unknown token is a stray, nothing is removed
    let mut scratch = vec![0u8; 64];
    let stray_outer = Pdu::new_echo_request(false, &b, &a, &None, &[0xFE, 0xCA], &mut scratch)
        .expect("compose");
    let stray_bytes = match stray_outer {
        Pdu::EchoRequestPDU { data, .. } => data.expect("data").data,
        _ => unreachable!(),
    };
    assert!(matches!(
        ns.n_unitdata_indication(2_000, MAC_B, MAC_A, &Qos {}, &stray_bytes),
        DeliverOutcome::StrayResponse
    ));
    // the pending token still correlates afterwards
    let mut scratch2 = vec![0u8; 64];
    let real_outer = Pdu::new_echo_request(false, &a, &b, &None, &[0x34, 0x12], &mut scratch2)
        .expect("compose");
    let real_bytes = match real_outer {
        Pdu::EchoRequestPDU { data, .. } => data.expect("data").data,
        _ => unreachable!(),
    };
    match ns.n_unitdata_indication(3_500, MAC_B, MAC_A, &Qos {}, &real_bytes) {
        DeliverOutcome::EchoCorrelated { rtt_ms } => assert_eq!(rtt_ms, 2_500),
        other => panic!("expected correlation, got {:?}", other),
    }
}

#[test]
fn timeout_sweep_evicts_only_old_entries() {
    let mut ns = fresh_service();
    let a = Nsap { authority: 49, area: 1, sub_area: 1, local_address: MAC_A };
    let b = Nsap { authority: 49, area: 1, sub_area: 1, local_address: MAC_B };
    ns.echo_request_at(7, 1_000, &a, &b, &None).expect("echo");
    ns.echo_request_at(9, 5_500, &a, &b, &None).expect("echo");
    let _ = ns.next_outbound();
    let _ = ns.next_outbound();
    // at 6_500 the first entry is 5_500 old (evicted), the second 1_000 (kept)
    let evicted = ns.sweep_correlation_table(6_500);
    assert_eq!(evicted, 1);
    // token 7 no longer correlates; token 9 still does
    let mut scratch = vec![0u8; 64];
    let outer7 = Pdu::new_echo_request(false, &a, &b, &None, &[7, 0], &mut scratch).expect("c");
    let bytes7 = match outer7 {
        Pdu::EchoRequestPDU { data, .. } => data.expect("data").data,
        _ => unreachable!(),
    };
    assert!(matches!(
        ns.n_unitdata_indication(6_600, MAC_B, MAC_A, &Qos {}, &bytes7),
        DeliverOutcome::StrayResponse
    ));
    let mut scratch2 = vec![0u8; 64];
    let outer9 = Pdu::new_echo_request(false, &a, &b, &None, &[9, 0], &mut scratch2).expect("c");
    let bytes9 = match outer9 {
        Pdu::EchoRequestPDU { data, .. } => data.expect("data").data,
        _ => unreachable!(),
    };
    assert!(matches!(
        ns.n_unitdata_indication(6_600, MAC_B, MAC_A, &Qos {}, &bytes9),
        DeliverOutcome::EchoCorrelated { .. }
    ));
}

#[test]
fn backpressure_on_full_channel() {
    // a channel at capacity rejects the push and keeps its contents in order
    let mut ch = SnChannel::new(2);
    for i in 0..2u8 {
        ch.push(SNUnitDataRequest {
            sn_source_address: MAC_A,
            sn_destination_address: MAC_B,
            sn_quality_of_service: osistack::dl::Qos {},
            sn_userdata: vec![i],
        })
        .expect("fits");
    }
    let overflow = ch.push(SNUnitDataRequest {
        sn_source_address: MAC_A,
        sn_destination_address: MAC_B,
        sn_quality_of_service: osistack::dl::Qos {},
        sn_userdata: vec![9],
    });
    assert!(matches!(overflow, Err(ClnpError::Congestion)));
    // the previously enqueued items come out first-in first-out
    assert_eq!(ch.pop().expect("first").sn_userdata, vec![0]);
    assert_eq!(ch.pop().expect("second").sn_userdata, vec![1]);
    assert!(ch.pop().is_none());
}

#[test]
fn backpressure_surfaces_to_sender() {
    let outbound = SnChannel::new(1);
    let inbound = NChannel::new(1);
    let mut ns = Service::new(String::from("A"), outbound, inbound);
    ns.add_serviced_subnet_nsap(1, 1, MAC_A);
    ns.add_known_host(String::from("B"), "11:22:33:44:55:66").expect("well-formed");
    ns.n_unitdata_request("B", &Qos {}, b"one").expect("fits");
    assert!(matches!(
        ns.n_unitdata_request("B", &Qos {}, b"two"),
        Err(ClnpError::Congestion)
    ));
    // the queued frame is intact
    let frame = ns.next_outbound().expect("first frame");
    assert_eq!(&frame.sn_userdata[1..], b"one");
}

#[test]
fn receive_loop_answers_echo_request() {
    // peer B sends an echo request to A; A's receive path answers with the
    // inner PDU bytes towards B
    let mut ns = fresh_service();
    let a = Nsap { authority: 49, area: 1, sub_area: 1, local_address: MAC_A };
    let b = Nsap { authority: 49, area: 1, sub_area: 1, local_address: MAC_B };
    let mut scratch = vec![0u8; 64];
    let request = Pdu::new_echo_request(false, &b, &a, &None, &[0x77, 0x88], &mut scratch)
        .expect("compose");
    let mut buffer = vec![0u8; 1500];
    let n = request.into_buf(true, &mut buffer).expect("encode");
    let indication = NUnitDataIndication {
        ns_source_address: MAC_B,
        ns_destination_address: MAC_A,
        ns_quality_of_service: Qos {},
        ns_userdata: buffer[0..n].to_vec(),
    };
    ns.enqueue_indication(indication).expect("fits");
    let outcome = ns.poll_indication(1_000).expect("one indication");
    assert!(matches!(outcome, DeliverOutcome::EchoReplied));
    assert!(ns.poll_indication(1_001).is_none());
    // the reply goes back to the sender and holds the inner Echo Response
    let reply = ns.next_outbound().expect("reply frame");
    assert_eq!(reply.sn_source_address, MAC_A);
    assert_eq!(reply.sn_destination_address, MAC_B);
    match Pdu::from_buf(&reply.sn_userdata).expect("decode reply") {
        Pdu::EchoResponsePDU { data, .. } => {
            assert_eq!(data.expect("token").data, vec![0x77, 0x88]);
        },
        _ => panic!("expected an echo response"),
    }
}

#[test]
fn receive_drops_bad_frames_and_stays_alive() {
    let mut ns = fresh_service();
    // a truncated frame is dropped with a typed reason
    assert!(matches!(
        ns.n_unitdata_indication(1_000, MAC_B, MAC_A, &Qos {}, &[0x81, 9, 1]),
        DeliverOutcome::Dropped { reason: ClnpError::ProtocolViolation }
    ));
    // an echo request without a well-formed inner PDU is dropped
    let bad_inner = [
        0x81, 13, 1, 30, 0x1E, 0, 16, 0, 0, 1, 0xAB, 1, 0xCD, 0xFF, 0xFF, 0xFF,
    ];
    assert!(matches!(
        ns.n_unitdata_indication(1_000, MAC_B, MAC_A, &Qos {}, &bad_inner),
        DeliverOutcome::Dropped { reason: ClnpError::ProtocolViolation }
    ));
    // an echo request whose inner PDU is not an echo response is dropped
    let inner_data_pdu = [0x81u8, 13, 1, 30, 0x1C, 0, 14, 0, 0, 1, 0xAB, 1, 0xCD, 0x55];
    let mut outer = vec![0x81u8, 13, 1, 30, 0x1E, 0, 0, 0, 0, 1, 0xAB, 1, 0xCD];
    outer.extend_from_slice(&inner_data_pdu);
    outer[6] = outer.len() as u8; // segment length covers header and data
    assert!(matches!(
        ns.n_unitdata_indication(1_000, MAC_B, MAC_A, &Qos {}, &outer),
        DeliverOutcome::Dropped { reason: ClnpError::ProtocolViolation }
    ));
    // the engine still works afterwards
    ns.n_unitdata_request("B", &Qos {}, b"still alive").expect("send");
    assert!(ns.next_outbound().is_some());
}

#[test]
fn deliver_hands_payloads_upward() {
    let mut ns = fresh_service();
    // inactive subset: everything after the protocol identifier
    match ns.n_unitdata_indication(1_000, MAC_B, MAC_A, &Qos {}, &[0x00, 0x68, 0x69]) {
        DeliverOutcome::Delivered { data } => assert_eq!(data, vec![0x68, 0x69]),
        other => panic!("expected delivery, got {:?}", other),
    }
    // a Data PDU: its data part
    let wire = [0x81, 13, 1, 30, 0x1C, 0, 16, 0, 0, 1, 0xAB, 1, 0xCD, 1, 2, 3];
    match ns.n_unitdata_indication(1_000, MAC_B, MAC_A, &Qos {}, &wire) {
        DeliverOutcome::Delivered { data } => assert_eq!(data, vec![1, 2, 3]),
        other => panic!("expected delivery, got {:?}", other),
    }
    // a Multicast Data PDU is logged and dropped
    let mcast = [0x81, 13, 1, 30, 0x1D, 0, 16, 0, 0, 1, 0xAB, 1, 0xCD, 1, 2, 3];
    assert!(matches!(
        ns.n_unitdata_indication(1_000, MAC_B, MAC_A, &Qos {}, &mcast),
        DeliverOutcome::Dropped { reason: ClnpError::NotImplemented }
    ));
}

#[test]
fn pdu_composition_full_protocol_unimplemented() {
    let ns = fresh_service();
    let a = Nsap { authority: 49, area: 1, sub_area: 1, local_address: MAC_A };
    let b = Nsap { authority: 49, area: 1, sub_area: 1, local_address: MAC_B };
    assert!(matches!(
        ns.pdu_composition(false, &a, &b, &Qos {}, b"payload"),
        Err(ClnpError::NotImplemented)
    ));
    let pdus = ns.pdu_composition(true, &a, &b, &Qos {}, b"payload").expect("inactive");
    assert_eq!(pdus.len(), 1);
}
