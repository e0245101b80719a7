use osistack::n::clnp::{
    header_format_analysis, parse_macaddr, ClnpError, HeaderFormatAnalysisResult, NAddressPart,
    NDataPart, NFixedPart, NFixedPartMiniForInactive, NOptionsPart, NParameter, Pdu,
    NETWORK_LAYER_PROTOCOL_IDENTIFIER_CLNP_FULL, NETWORK_LAYER_PROTOCOL_IDENTIFIER_CLNP_INACTIVE,
    TYPE_DT_PDU, TYPE_ER_PDU, TYPE_ERP_PDU, TYPE_ERQ_PDU,
};
use osistack::n::Nsap;

fn data_family_pdu(type_: u8, lifetime: u8, dest: Vec<u8>, src: Vec<u8>, payload: Vec<u8>) -> Pdu {
    let fixed = NFixedPart {
        network_layer_protocol_identifier: NETWORK_LAYER_PROTOCOL_IDENTIFIER_CLNP_FULL,
        length_indicator: None,
        version_protocol_id_extension: 1,
        lifetime,
        sp_segmentation_permitted: false,
        ms_more_segments: false,
        er_error_report: false,
        type_,
        segment_length: None,
        checksum: (0, 0),
    };
    let addr = NAddressPart {
        destination_address_length_indicator: None,
        destination_address: dest,
        source_address_length_indicator: None,
        source_address: src,
    };
    match type_ {
        TYPE_DT_PDU => Pdu::DataPDU {
            fixed,
            addr,
            seg: None,
            opts: None,
            discard: None,
            data: Some(NDataPart { data: payload }),
        },
        TYPE_ERQ_PDU => Pdu::EchoRequestPDU {
            fixed,
            addr,
            seg: None,
            opts: None,
            discard: None,
            data: Some(NDataPart { data: payload }),
        },
        _ => Pdu::EchoResponsePDU {
            fixed,
            addr,
            seg: None,
            opts: None,
            discard: None,
            data: Some(NDataPart { data: payload }),
        },
    }
}

fn encode(pdu: &Pdu, checksum: bool) -> Vec<u8> {
    let mut buffer = vec![0u8; 4096];
    let n = pdu.into_buf(checksum, &mut buffer).expect("encode");
    buffer[0..n].to_vec()
}

fn fields(pdu: &Pdu) -> (u8, bool, bool, bool, Vec<u8>, Vec<u8>, Vec<u8>) {
    match pdu {
        Pdu::DataPDU { fixed, addr, data, .. }
        | Pdu::EchoRequestPDU { fixed, addr, data, .. }
        | Pdu::EchoResponsePDU { fixed, addr, data, .. }
        | Pdu::MulticastDataPDU { fixed, addr, data, .. } => (
            fixed.type_,
            fixed.sp_segmentation_permitted,
            fixed.ms_more_segments,
            fixed.er_error_report,
            addr.destination_address.clone(),
            addr.source_address.clone(),
            data.as_ref().map(|d| d.data.clone()).unwrap_or_default(),
        ),
        _ => panic!("not a data-family PDU"),
    }
}

#[test]
fn round_trip_data_family() {
    // addresses up to 20 bytes, payload up to 1400 bytes
    let dest: Vec<u8> = (0..20u8).collect();
    let src: Vec<u8> = (100..112u8).collect();
    let payload: Vec<u8> = (0..1400u32).map(|i| (i % 251) as u8).collect();
    for type_ in [TYPE_DT_PDU, TYPE_ERQ_PDU, TYPE_ERP_PDU] {
        let pdu = data_family_pdu(type_, 30, dest.clone(), src.clone(), payload.clone());
        let bytes = encode(&pdu, true);
        let decoded = Pdu::from_buf(&bytes).expect("decode");
        let (t, sp, ms, er, d, s, p) = fields(&decoded);
        assert_eq!(t, type_);
        assert!(!sp && !ms && !er);
        assert_eq!(d, dest);
        assert_eq!(s, src);
        assert_eq!(p, payload);
        // the decoded header carries the derived lengths
        match &decoded {
            Pdu::DataPDU { fixed, .. }
            | Pdu::EchoRequestPDU { fixed, .. }
            | Pdu::EchoResponsePDU { fixed, .. } => {
                assert_eq!(fixed.length_indicator, Some((11 + 20 + 12) as u8));
                assert_eq!(fixed.segment_length, Some((11 + 20 + 12 + 1400) as u16));
            },
            _ => unreachable!(),
        }
    }
}

#[test]
fn round_trip_inactive() {
    let pdu = Pdu::Inactive {
        fixed_mini: NFixedPartMiniForInactive {
            network_layer_protocol_identifier: NETWORK_LAYER_PROTOCOL_IDENTIFIER_CLNP_INACTIVE,
        },
        data: NDataPart { data: b"inactive payload".to_vec() },
    };
    let bytes = encode(&pdu, true);
    assert_eq!(bytes[0], 0x00);
    match Pdu::from_buf(&bytes).expect("decode") {
        Pdu::Inactive { data, .. } => assert_eq!(data.data, b"inactive payload".to_vec()),
        _ => panic!("expected inactive"),
    }
}

#[test]
fn encoded_checksum_validates() {
    let pdu = data_family_pdu(
        TYPE_DT_PDU,
        17,
        vec![1, 2, 3, 4],
        vec![9, 8, 7],
        b"some payload".to_vec(),
    );
    let bytes = encode(&pdu, true);
    let header_len = bytes[1] as usize;
    // the sum-based check of the header error-detection function passes
    let mut c0: u64 = 0;
    let mut c1: u64 = 0;
    for i in 0..header_len {
        c0 += bytes[i] as u64;
        c1 += c0;
    }
    assert_eq!(c0 % 255, 0, "first running sum must vanish mod 255");
    assert_eq!(c1 % 255, 0, "second running sum must vanish mod 255");
    assert!(bytes[7] != 0 && bytes[8] != 0);
}

#[test]
fn checksum_deterministic_and_zero_remapped() {
    let dest = vec![0x11, 0x22];
    let src = vec![0x33];
    // determinism: the same PDU encodes to identical checksum bytes
    let pdu = data_family_pdu(TYPE_DT_PDU, 42, dest.clone(), src.clone(), vec![5, 6, 7]);
    let once = encode(&pdu, true);
    let twice = encode(&pdu, true);
    assert_eq!(once, twice);
    assert_eq!((once[7], once[8]), (twice[7], twice[8]));
    // a computed zero is remapped to 255: sweep the lifetime octet until a
    // checksum byte comes out as 255, and confirm no input ever yields zero
    let mut saw_remap = false;
    for lifetime in 0..=255u8 {
        let p = data_family_pdu(TYPE_DT_PDU, lifetime, dest.clone(), src.clone(), vec![]);
        let b = encode(&p, true);
        assert!(b[7] != 0 && b[8] != 0, "checksum bytes are never zero");
        if b[7] == 255 || b[8] == 255 {
            saw_remap = true;
        }
    }
    assert!(saw_remap, "a computed zero must be remapped to 255");
}

#[test]
fn checksum_disabled_keeps_sentinel() {
    let pdu = data_family_pdu(TYPE_DT_PDU, 20, vec![1], vec![2], vec![3]);
    let bytes = encode(&pdu, false);
    assert_eq!((bytes[7], bytes[8]), (0, 0));
}

#[test]
fn exact_wire_bytes() {
    // one fully pinned-down encoding
    let pdu = data_family_pdu(TYPE_DT_PDU, 10, vec![0xAB], vec![0xCD], vec![0xEF]);
    let bytes = encode(&pdu, false);
    // header: npid, length indicator (11+1+1=13), version, lifetime, octet 5
    // (flags clear, type 0x1C), segment length (13+1=14), checksum sentinel,
    // then the address part, then the payload
    assert_eq!(
        bytes,
        vec![0x81, 13, 0x01, 10, 0x1C, 0x00, 14, 0x00, 0x00, 1, 0xAB, 1, 0xCD, 0xEF]
    );
}

#[test]
fn decode_rejects_malformed_input() {
    // empty buffer
    assert!(matches!(Pdu::from_buf(&[]), Err(ClnpError::ProtocolViolation)));
    // unknown protocol identifier
    assert!(matches!(Pdu::from_buf(&[0x55, 1, 2, 3]), Err(ClnpError::ProtocolViolation)));
    // full subset, truncated before octet five
    assert!(matches!(Pdu::from_buf(&[0x81, 9, 1, 30]), Err(ClnpError::ProtocolViolation)));
    // unknown type code
    assert!(matches!(
        Pdu::from_buf(&[0x81, 9, 1, 30, 0x02, 0, 9, 0, 0]),
        Err(ClnpError::ProtocolViolation)
    ));
    // error report PDUs are not implemented
    assert!(matches!(
        Pdu::from_buf(&[0x81, 9, 1, 30, TYPE_ER_PDU, 0, 9, 0, 0]),
        Err(ClnpError::NotImplemented)
    ));
    // more-segments without segmentation-permitted is a protocol violation
    let o5_ms = 0x40 | TYPE_DT_PDU;
    assert!(matches!(
        Pdu::from_buf(&[0x81, 13, 1, 30, o5_ms, 0, 14, 0, 0, 1, 0xAB, 1, 0xCD, 0xEF]),
        Err(ClnpError::ProtocolViolation)
    ));
    // a segmented PDU is outside the subset
    let o5_sp_ms = 0x80 | 0x40 | TYPE_DT_PDU;
    assert!(matches!(
        Pdu::from_buf(
            &[0x81, 19, 1, 30, o5_sp_ms, 0, 20, 0, 0, 1, 0xAB, 1, 0xCD, 0, 0, 0, 0, 0, 0, 0xEF]
        ),
        Err(ClnpError::NotImplemented)
    ));
    // an options part is present when the length indicator exceeds the parts
    let valid = vec![0x81, 13, 1, 30, TYPE_DT_PDU, 0, 14, 0, 0, 1, 0xAB, 1, 0xCD, 0xEF];
    let mut with_opts = valid.clone();
    with_opts[1] = 14; // one octet of options
    with_opts[6] = 15;
    with_opts.push(0);
    assert!(matches!(Pdu::from_buf(&with_opts), Err(ClnpError::NotImplemented)));
    // truncated: segment length larger than the buffer
    let mut truncated = valid.clone();
    truncated[6] = 200;
    assert!(matches!(Pdu::from_buf(&truncated), Err(ClnpError::ProtocolViolation)));
    // segment length smaller than the header length
    let mut inverted = valid;
    inverted[6] = 9;
    assert!(matches!(Pdu::from_buf(&inverted), Err(ClnpError::ProtocolViolation)));
}

#[test]
fn encode_rejects_unsupported() {
    let fixed = NFixedPart {
        network_layer_protocol_identifier: NETWORK_LAYER_PROTOCOL_IDENTIFIER_CLNP_FULL,
        length_indicator: None,
        version_protocol_id_extension: 1,
        lifetime: 10,
        sp_segmentation_permitted: false,
        ms_more_segments: false,
        er_error_report: false,
        type_: 0x1D,
        segment_length: None,
        checksum: (0, 0),
    };
    let addr = NAddressPart {
        destination_address_length_indicator: None,
        destination_address: vec![1],
        source_address_length_indicator: None,
        source_address: vec![2],
    };
    let md = Pdu::MulticastDataPDU {
        fixed,
        addr,
        seg: None,
        opts: None,
        discard: None,
        data: None,
    };
    let mut buffer = vec![0u8; 64];
    assert_eq!(md.into_buf(true, &mut buffer), Err(ClnpError::NotImplemented));
    // an options part cannot be composed
    let with_opts = Pdu::DataPDU {
        fixed: NFixedPart {
            network_layer_protocol_identifier: NETWORK_LAYER_PROTOCOL_IDENTIFIER_CLNP_FULL,
            length_indicator: None,
            version_protocol_id_extension: 1,
            lifetime: 10,
            sp_segmentation_permitted: false,
            ms_more_segments: false,
            er_error_report: false,
            type_: TYPE_DT_PDU,
            segment_length: None,
            checksum: (0, 0),
        },
        addr: NAddressPart {
            destination_address_length_indicator: None,
            destination_address: vec![1],
            source_address_length_indicator: None,
            source_address: vec![2],
        },
        seg: None,
        opts: Some(NOptionsPart { params: vec![] }),
        discard: None,
        data: None,
    };
    assert_eq!(with_opts.into_buf(true, &mut buffer), Err(ClnpError::NotImplemented));
}

#[test]
fn encode_reports_small_buffer() {
    let pdu = data_family_pdu(TYPE_DT_PDU, 10, vec![1, 2], vec![3, 4], vec![0; 100]);
    let mut buffer = vec![0u8; 16];
    assert_eq!(pdu.into_buf(true, &mut buffer), Err(ClnpError::BufferTooSmall));
}

#[test]
fn compose_echo_request_nests_swapped_echo_response() {
    let source = Nsap { authority: 49, area: 1, sub_area: 1, local_address: [1, 2, 3, 4, 5, 6] };
    let destination = Nsap {
        authority: 49,
        area: 1,
        sub_area: 2,
        local_address: [9, 9, 9, 9, 9, 9],
    };
    let token_bytes = [0x34u8, 0x12u8];
    let mut scratch = vec![0u8; 64];
    let outer =
        Pdu::new_echo_request(false, &source, &destination, &None, &token_bytes, &mut scratch)
            .expect("compose");
    // the outer PDU is an Echo Request addressed source -> destination
    let (outer_dest, outer_src, outer_data) = match &outer {
        Pdu::EchoRequestPDU { addr, data, .. } => (
            addr.destination_address.clone(),
            addr.source_address.clone(),
            data.as_ref().expect("outer data").data.clone(),
        ),
        _ => panic!("expected an echo request"),
    };
    assert_eq!(outer_dest, destination.to_u8());
    assert_eq!(outer_src, source.to_u8());
    // the inner PDU travels with the invalid segment-length and checksum
    // sentinels on the wire, a conformance requirement
    assert_eq!((outer_data[5], outer_data[6]), (0, 0));
    assert_eq!((outer_data[7], outer_data[8]), (0, 0));
    // its data part decodes to an Echo Response with the addressing swapped
    // and the correlation token as payload
    match Pdu::from_buf(&outer_data).expect("inner decode") {
        Pdu::EchoResponsePDU { fixed, addr, data, .. } => {
            assert_eq!(addr.destination_address, outer_src);
            assert_eq!(addr.source_address, outer_dest);
            assert_eq!(data.expect("inner data").data, token_bytes.to_vec());
            assert_eq!(fixed.segment_length, Some(0));
            assert_eq!(fixed.checksum, (0, 0));
        },
        _ => panic!("expected an inner echo response"),
    }
    // the outer PDU's own header is fully valid once encoded with checksum
    let mut buffer = vec![0u8; 256];
    let n = outer.into_buf(true, &mut buffer).expect("encode outer");
    assert_eq!(u16::from_be_bytes([buffer[5], buffer[6]]) as usize, n);
    assert!(buffer[7] != 0 && buffer[8] != 0);
}

#[test]
fn sentinel_segment_length_takes_enclosing_extent() {
    // a PDU whose segment length holds the invalid/ignore sentinel: the data
    // extent is determined by the enclosing frame, exactly as delivered
    let wire = [0x81u8, 13, 1, 30, 0x1C, 0, 0, 0, 0, 1, 0xAB, 1, 0xCD, 5, 6, 7];
    match Pdu::from_buf(&wire).expect("decode") {
        Pdu::DataPDU { fixed, data, .. } => {
            assert_eq!(fixed.segment_length, Some(0));
            assert_eq!(data.expect("data").data, vec![5, 6, 7]);
        },
        _ => panic!("expected a data PDU"),
    }
    // composing with the sentinel writes the sentinel back
    let reencoded = {
        let pdu = Pdu::from_buf(&wire).expect("decode");
        let mut buffer = vec![0u8; 64];
        let n = pdu.into_buf(false, &mut buffer).expect("encode");
        buffer[0..n].to_vec()
    };
    assert_eq!(reencoded, wire.to_vec());
}

#[test]
fn octet5_and_u16_helpers() {
    let o5 = NFixedPart::compose_octet5(true, false, true, TYPE_ERQ_PDU).expect("fits");
    assert_eq!(NFixedPart::decompose_octet5(&o5), (true, false, true, TYPE_ERQ_PDU));
    assert_eq!(NFixedPart::compose_octet5(false, false, false, 32), None);
    assert_eq!(
        NFixedPart::compose_octet5_unchecked(false, true, false, 0x1F),
        0x40 | 0x1F
    );
    assert_eq!(osistack::n::clnp::u16_of(0x12, 0x34), 0x1234);
    assert_eq!(osistack::n::clnp::u16_hi(0xABCD), 0xAB);
    assert_eq!(osistack::n::clnp::u16_lo(0xABCD), 0xCD);
}

#[test]
fn header_format_analysis_classifies() {
    assert_eq!(header_format_analysis(&[]), HeaderFormatAnalysisResult::TooShortTooIdentify);
    assert_eq!(header_format_analysis(&[0x81, 1]), HeaderFormatAnalysisResult::FullProtocol);
    assert_eq!(header_format_analysis(&[0x00]), HeaderFormatAnalysisResult::InactiveProtocol);
    assert_eq!(header_format_analysis(&[0x42]), HeaderFormatAnalysisResult::UnknownProtocol);
}

#[test]
fn nsap_wire_form() {
    let nsap = Nsap {
        authority: 0x3101,
        area: 0x0102,
        sub_area: 0x0304,
        local_address: [0xAA, 0xBB, 0xCC, 0xDD, 0xEE, 0xFF],
    };
    assert_eq!(nsap.len(), 12);
    assert_eq!(
        nsap.to_u8(),
        vec![0x31, 0x01, 0x01, 0x02, 0x03, 0x04, 0xAA, 0xBB, 0xCC, 0xDD, 0xEE, 0xFF]
    );
}

#[test]
fn nsap_display_form() {
    let nsap = Nsap {
        authority: 49,
        area: 1,
        sub_area: 1,
        local_address: [0xAA, 0xBB, 0xCC, 0xDD, 0xEE, 0xFF],
    };
    assert_eq!(nsap.to_string(), String::from("49.1.1.aabbccddeeff"));
    let other = Nsap { authority: 65535, area: 0, sub_area: 207, local_address: [0; 6] };
    assert_eq!(other.to_string(), String::from("65535.0.207.000000000000"));
}

#[test]
fn nsap_from_title_not_implemented() {
    assert!(matches!(
        Nsap::new_from_network_entity_title(String::from("anything")),
        Err(ClnpError::NotImplemented)
    ));
}

#[test]
fn parse_macaddr_reads_six_bytes() {
    let mac = parse_macaddr("11:22:33:44:55:66").expect("well-formed address");
    assert_eq!(mac, [0x11, 0x22, 0x33, 0x44, 0x55, 0x66]);
    assert!(parse_macaddr("not an address").is_err());
}

#[test]
fn options_part_len_bytes() {
    let opts = NOptionsPart {
        params: vec![
            NParameter { parameter_code: 0xC1, parameter_length: 2, parameter_value: vec![1, 2] },
            NParameter { parameter_code: 0xC2, parameter_length: 0, parameter_value: vec![] },
        ],
    };
    // one code and one length octet per parameter, plus the value bytes
    assert_eq!(opts.len_bytes(), 2 + 2 + 2 + 0);
    assert!(matches!(NOptionsPart::from_buf(&[0xC1, 0]), Err(ClnpError::NotImplemented)));
}
