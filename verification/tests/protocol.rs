use kernel::error::ProtocolError;
use kernel::protocol::decode::{decode_admin, decode_node};
use kernel::protocol::encode::{encode_admin, encode_node};
use kernel::protocol::frame::{encode_frame, payload_len, recv_message, send_message};
use kernel::protocol::message::{AdminToNode, Mapping, NodeToAdmin};
use kernel::userspace::SavedRegs;
use serde_cbor::Value;
use std::collections::BTreeMap;

fn sample_regs() -> SavedRegs {
    SavedRegs {
        rax: 0,
        rbx: 23,
        rcx: 24,
        rdx: 255,
        rdi: 256,
        rsi: 65535,
        rbp: 65536,
        r8: 0xffff_ffff,
        r9: 0x1_0000_0000,
        r10: u64::MAX,
        r11: 11,
        r12: 12,
        r13: 13,
        r14: 14,
        r15: 15,
        rflags: 0x202,
        rip: 0x40_1000,
        rsp: 0x7fff_ffff_f000,
    }
}

fn sample_mapping() -> Mapping {
    Mapping {
        perm_r: true,
        perm_w: false,
        perm_x: true,
        page_start: 0x1000,
        page_end: 0x2fff,
        hint: String::from("/bin/caf\u{e9}"),
        pages: vec![1, 2, 70000],
    }
}

fn text(s: &str) -> Value {
    Value::Text(String::from(s))
}

fn map(entries: Vec<(&str, Value)>) -> Value {
    let mut m = BTreeMap::new();
    for (k, v) in entries {
        m.insert(text(k), v);
    }
    Value::Map(m)
}

#[test]
fn ready_is_a_text_of_five_letters() {
    assert_eq!(encode_node(NodeToAdmin::Ready), vec![0x65, b'R', b'e', b'a', b'd', b'y']);
}

#[test]
fn ready_round_trip() {
    let bytes = encode_node(NodeToAdmin::Ready);
    assert_eq!(decode_node(&bytes), Ok(NodeToAdmin::Ready));
}

#[test]
fn ready_is_written_as_the_cbor_crate_writes_it() {
    let theirs = serde_cbor::to_vec(&text("Ready")).unwrap();
    assert_eq!(encode_node(NodeToAdmin::Ready), theirs);
}

#[test]
fn decode_node_rejects_other_text() {
    assert_eq!(decode_node(&[0x65, b'r', b'e', b'a', b'd', b'y']), Err(ProtocolError::Malformed));
    assert_eq!(decode_node(&[]), Err(ProtocolError::Malformed));
    assert_eq!(
        decode_node(&[0x65, b'R', b'e', b'a', b'd', b'y', 0]),
        Err(ProtocolError::Malformed)
    );
}

#[test]
fn push_page_round_trip() {
    let mut page = vec![0u8; 4096];
    for (i, b) in page.iter_mut().enumerate() {
        *b = (i % 256) as u8;
    }
    let message = AdminToNode::PushPage { page_id: 7, page };
    let bytes = encode_admin(&message);
    assert_eq!(decode_admin(&bytes), Ok(message));
}

#[test]
fn push_page_of_any_length_round_trip() {
    for len in [0usize, 1, 23, 24, 255, 256, 5000] {
        let message = AdminToNode::PushPage { page_id: u32::MAX, page: vec![0xab; len] };
        let bytes = encode_admin(&message);
        assert_eq!(decode_admin(&bytes), Ok(message));
    }
}

#[test]
fn push_snapshot_round_trip() {
    let message = AdminToNode::PushSnapshot {
        regs: sample_regs(),
        mappings: vec![
            sample_mapping(),
            Mapping { hint: String::new(), pages: vec![], ..sample_mapping() },
        ],
    };
    let bytes = encode_admin(&message);
    assert_eq!(decode_admin(&bytes), Ok(message));
}

#[test]
fn push_snapshot_without_mappings_round_trip() {
    let message = AdminToNode::PushSnapshot { regs: SavedRegs::default(), mappings: vec![] };
    let bytes = encode_admin(&message);
    assert_eq!(decode_admin(&bytes), Ok(message));
}

#[test]
fn small_push_page_has_the_expected_bytes() {
    let message = AdminToNode::PushPage { page_id: 1, page: vec![0, 23, 24, 255] };
    let mut expected = vec![0xa1, 0x68];
    expected.extend_from_slice(b"PushPage");
    expected.extend_from_slice(&[0xa2, 0x67]);
    expected.extend_from_slice(b"page_id");
    expected.extend_from_slice(&[0x01, 0x64]);
    expected.extend_from_slice(b"page");
    expected.extend_from_slice(&[0x84, 0x00, 0x17, 0x18, 0x18, 0x18, 0xff]);
    assert_eq!(encode_admin(&message), expected);
}

#[test]
fn push_page_reads_as_cbor() {
    let message = AdminToNode::PushPage { page_id: 300, page: vec![1, 2, 200] };
    let theirs: Value = serde_cbor::from_slice(&encode_admin(&message)).unwrap();
    let expected = map(vec![(
        "PushPage",
        map(vec![
            ("page_id", Value::Integer(300)),
            (
                "page",
                Value::Array(vec![Value::Integer(1), Value::Integer(2), Value::Integer(200)]),
            ),
        ]),
    )]);
    assert_eq!(theirs, expected);
}

#[test]
fn push_snapshot_reads_as_cbor() {
    let regs = sample_regs();
    let message = AdminToNode::PushSnapshot { regs, mappings: vec![sample_mapping()] };
    let theirs: Value = serde_cbor::from_slice(&encode_admin(&message)).unwrap();
    let regs_tree = map(vec![
        ("rax", Value::Integer(regs.rax as i128)),
        ("rbx", Value::Integer(regs.rbx as i128)),
        ("rcx", Value::Integer(regs.rcx as i128)),
        ("rdx", Value::Integer(regs.rdx as i128)),
        ("rdi", Value::Integer(regs.rdi as i128)),
        ("rsi", Value::Integer(regs.rsi as i128)),
        ("rbp", Value::Integer(regs.rbp as i128)),
        ("r8", Value::Integer(regs.r8 as i128)),
        ("r9", Value::Integer(regs.r9 as i128)),
        ("r10", Value::Integer(regs.r10 as i128)),
        ("r11", Value::Integer(regs.r11 as i128)),
        ("r12", Value::Integer(regs.r12 as i128)),
        ("r13", Value::Integer(regs.r13 as i128)),
        ("r14", Value::Integer(regs.r14 as i128)),
        ("r15", Value::Integer(regs.r15 as i128)),
        ("rflags", Value::Integer(regs.rflags as i128)),
        ("rip", Value::Integer(regs.rip as i128)),
        ("rsp", Value::Integer(regs.rsp as i128)),
    ]);
    let mapping_tree = map(vec![
        ("perm_r", Value::Bool(true)),
        ("perm_w", Value::Bool(false)),
        ("perm_x", Value::Bool(true)),
        ("page_start", Value::Integer(0x1000)),
        ("page_end", Value::Integer(0x2fff)),
        ("hint", text("/bin/caf\u{e9}")),
        (
            "pages",
            Value::Array(vec![Value::Integer(1), Value::Integer(2), Value::Integer(70000)]),
        ),
    ]);
    let expected = map(vec![(
        "PushSnapshot",
        map(vec![("regs", regs_tree), ("mappings", Value::Array(vec![mapping_tree]))]),
    )]);
    assert_eq!(theirs, expected);
}

#[test]
fn decode_admin_rejects_garbage() {
    assert_eq!(decode_admin(&[]), Err(ProtocolError::Malformed));
    assert_eq!(decode_admin(&[0xff]), Err(ProtocolError::Malformed));
    assert_eq!(decode_admin(&encode_node(NodeToAdmin::Ready)), Err(ProtocolError::Malformed));
}

#[test]
fn decode_admin_rejects_trailing_bytes() {
    let mut bytes = encode_admin(&AdminToNode::PushPage { page_id: 1, page: vec![1] });
    bytes.push(0);
    assert_eq!(decode_admin(&bytes), Err(ProtocolError::Malformed));
}

#[test]
fn decode_admin_rejects_a_truncated_payload() {
    let bytes = encode_admin(&AdminToNode::PushPage { page_id: 1, page: vec![1, 2, 3] });
    for len in 0..bytes.len() {
        assert_eq!(decode_admin(&bytes[..len]), Err(ProtocolError::Malformed));
    }
}

#[test]
fn decode_admin_rejects_an_argument_that_is_not_shortest() {
    // page_id 1 written in two bytes (0x18 0x01) in place of one
    let mut bytes = vec![0xa1, 0x68];
    bytes.extend_from_slice(b"PushPage");
    bytes.extend_from_slice(&[0xa2, 0x67]);
    bytes.extend_from_slice(b"page_id");
    bytes.extend_from_slice(&[0x18, 0x01, 0x64]);
    bytes.extend_from_slice(b"page");
    bytes.extend_from_slice(&[0x80]);
    assert_eq!(decode_admin(&bytes), Err(ProtocolError::Malformed));
}

#[test]
fn decode_admin_rejects_a_page_byte_out_of_range() {
    let mut bytes = vec![0xa1, 0x68];
    bytes.extend_from_slice(b"PushPage");
    bytes.extend_from_slice(&[0xa2, 0x67]);
    bytes.extend_from_slice(b"page_id");
    bytes.extend_from_slice(&[0x01, 0x64]);
    bytes.extend_from_slice(b"page");
    bytes.extend_from_slice(&[0x81, 0x19, 0x01, 0x00]);
    assert_eq!(decode_admin(&bytes), Err(ProtocolError::Malformed));
}

#[test]
fn decode_admin_rejects_a_hint_that_is_not_utf8() {
    let message = AdminToNode::PushSnapshot {
        regs: SavedRegs::default(),
        mappings: vec![Mapping { hint: String::from("ab"), ..sample_mapping() }],
    };
    let mut bytes = encode_admin(&message);
    let at = bytes.windows(7).position(|w| w == b"dhintbab".get(..7).unwrap()).unwrap();
    assert_eq!(decode_admin(&bytes), Ok(message));
    bytes[at + 6] = 0xff;
    assert_eq!(decode_admin(&bytes), Err(ProtocolError::Malformed));
}

#[test]
fn frame_prefixes_the_length_little_endian() {
    let payload = vec![9u8; 0x0102];
    let framed = encode_frame(&payload).unwrap();
    assert_eq!(&framed[..4], &[0x02, 0x01, 0x00, 0x00]);
    assert_eq!(&framed[4..], &payload[..]);
}

#[test]
fn payload_len_reads_little_endian() {
    assert_eq!(payload_len(&[0x78, 0x56, 0x34, 0x12]), 0x1234_5678);
    assert_eq!(payload_len(&[0xff, 0xff, 0xff, 0xff]), u32::MAX);
    assert_eq!(payload_len(&[0, 0, 0, 0]), 0);
}

#[test]
fn send_message_frames_ready() {
    assert_eq!(
        send_message(NodeToAdmin::Ready),
        vec![6, 0, 0, 0, 0x65, b'R', b'e', b'a', b'd', b'y']
    );
}

#[test]
fn recv_message_reads_the_first_frame() {
    let first = AdminToNode::PushPage { page_id: 3, page: vec![1, 2, 3] };
    let second = AdminToNode::PushSnapshot { regs: sample_regs(), mappings: vec![] };
    let mut stream = encode_frame(&encode_admin(&first)).unwrap();
    let first_len = stream.len();
    stream.extend_from_slice(&encode_frame(&encode_admin(&second)).unwrap());
    assert_eq!(recv_message(&stream), Ok((first, first_len)));
    assert_eq!(recv_message(&stream[first_len..]), Ok((second, stream.len() - first_len)));
}

#[test]
fn recv_message_reports_a_short_stream() {
    let stream = encode_frame(&encode_admin(&AdminToNode::PushPage { page_id: 3, page: vec![1] }))
        .unwrap();
    assert_eq!(recv_message(&stream[..3]), Err(ProtocolError::Truncated));
    assert_eq!(recv_message(&stream[..stream.len() - 1]), Err(ProtocolError::Truncated));
    assert_eq!(recv_message(&[]), Err(ProtocolError::Truncated));
}

#[test]
fn recv_message_reports_a_malformed_payload() {
    assert_eq!(recv_message(&[1, 0, 0, 0, 0xff]), Err(ProtocolError::Malformed));
    assert_eq!(recv_message(&[0, 0, 0, 0]), Err(ProtocolError::Malformed));
}

#[test]
fn arguments_are_written_in_the_shortest_form() {
    let head = |page_id: u32| {
        let bytes = encode_admin(&AdminToNode::PushPage { page_id, page: vec![] });
        // the map, the name of the variant, the inner map and the name of the field come first
        bytes[19..bytes.len() - 6].to_vec()
    };
    assert_eq!(head(0), vec![0x00]);
    assert_eq!(head(23), vec![0x17]);
    assert_eq!(head(24), vec![0x18, 0x18]);
    assert_eq!(head(255), vec![0x18, 0xff]);
    assert_eq!(head(256), vec![0x19, 0x01, 0x00]);
    assert_eq!(head(0xffff), vec![0x19, 0xff, 0xff]);
    assert_eq!(head(0x1_0000), vec![0x1a, 0x00, 0x01, 0x00, 0x00]);
    assert_eq!(head(0x0102_0304), vec![0x1a, 0x01, 0x02, 0x03, 0x04]);
    assert_eq!(head(u32::MAX), vec![0x1a, 0xff, 0xff, 0xff, 0xff]);
}

#[test]
fn registers_are_written_in_eight_bytes_when_they_need_them() {
    let regs = SavedRegs { rax: 0x0102_0304_0506_0708, ..SavedRegs::default() };
    let bytes = encode_admin(&AdminToNode::PushSnapshot { regs, mappings: vec![] });
    let at = bytes.windows(4).position(|w| w == b"crax".get(..4).unwrap()).unwrap();
    assert_eq!(&bytes[at..at + 13], &[
        0x63, b'r', b'a', b'x', 0x1b, 0x01, 0x02, 0x03, 0x04, 0x05, 0x06, 0x07, 0x08
    ]);
}

#[test]
fn mapping_covers_its_pages() {
    let exact = sample_mapping();
    assert!(!exact.covers_pages());
    let exact = Mapping { pages: vec![1, 2], ..sample_mapping() };
    assert!(exact.covers_pages());
    assert!(!Mapping { page_end: 0x2ffe, ..exact.clone() }.covers_pages());
    assert!(!Mapping { page_end: 0x0fff, ..exact.clone() }.covers_pages());
    assert!(!Mapping { pages: vec![], ..exact.clone() }.covers_pages());
    assert!(!Mapping { page_start: 0, page_end: u64::MAX, ..exact.clone() }.covers_pages());
    assert!(Mapping { page_start: 0, page_end: 4095, pages: vec![9], ..exact }.covers_pages());
}

fn page_push(fields: &[u8]) -> Vec<u8> {
    let mut bytes = vec![0xa1, 0x68];
    bytes.extend_from_slice(b"PushPage");
    bytes.extend_from_slice(fields);
    bytes
}

#[test]
fn decode_admin_reads_the_declared_field_order_only() {
    let mut in_order = vec![0xa2, 0x67];
    in_order.extend_from_slice(b"page_id");
    in_order.extend_from_slice(&[0x05, 0x64]);
    in_order.extend_from_slice(b"page");
    in_order.extend_from_slice(&[0x81, 0x07]);
    assert_eq!(
        decode_admin(&page_push(&in_order)),
        Ok(AdminToNode::PushPage { page_id: 5, page: vec![7] })
    );
    let mut swapped = vec![0xa2, 0x64];
    swapped.extend_from_slice(b"page");
    swapped.extend_from_slice(&[0x81, 0x07, 0x67]);
    swapped.extend_from_slice(b"page_id");
    swapped.extend_from_slice(&[0x05]);
    // a reader of maps takes this for the same message
    let theirs: Value = serde_cbor::from_slice(&page_push(&swapped)).unwrap();
    let ours: Value = serde_cbor::from_slice(&page_push(&in_order)).unwrap();
    assert_eq!(theirs, ours);
    assert_eq!(decode_admin(&page_push(&swapped)), Err(ProtocolError::Malformed));
}

#[test]
fn decode_admin_rejects_indefinite_lengths() {
    // the page as an array of indefinite length: 0x9f, the items, 0xff
    let mut fields = vec![0xa2, 0x67];
    fields.extend_from_slice(b"page_id");
    fields.extend_from_slice(&[0x05, 0x64]);
    fields.extend_from_slice(b"page");
    fields.extend_from_slice(&[0x9f, 0x07, 0xff]);
    let bytes = page_push(&fields);
    let theirs: Value = serde_cbor::from_slice(&bytes).unwrap();
    assert_eq!(
        theirs,
        map(vec![(
            "PushPage",
            map(vec![
                ("page_id", Value::Integer(5)),
                ("page", Value::Array(vec![Value::Integer(7)]))
            ])
        )])
    );
    assert_eq!(decode_admin(&bytes), Err(ProtocolError::Malformed));
    // the fields as a map of indefinite length: 0xbf, the entries, 0xff
    let mut fields = vec![0xbf, 0x67];
    fields.extend_from_slice(b"page_id");
    fields.extend_from_slice(&[0x05, 0x64]);
    fields.extend_from_slice(b"page");
    fields.extend_from_slice(&[0x81, 0x07, 0xff]);
    assert_eq!(decode_admin(&page_push(&fields)), Err(ProtocolError::Malformed));
}

#[test]
fn decode_admin_rejects_a_page_as_a_byte_string() {
    let mut fields = vec![0xa2, 0x67];
    fields.extend_from_slice(b"page_id");
    fields.extend_from_slice(&[0x05, 0x64]);
    fields.extend_from_slice(b"page");
    fields.extend_from_slice(&[0x41, 0x07]);
    assert_eq!(decode_admin(&page_push(&fields)), Err(ProtocolError::Malformed));
}

#[test]
fn decode_admin_rejects_missing_and_added_fields() {
    let mut missing = vec![0xa1, 0x67];
    missing.extend_from_slice(b"page_id");
    missing.extend_from_slice(&[0x05]);
    assert_eq!(decode_admin(&page_push(&missing)), Err(ProtocolError::Malformed));
    let mut added = vec![0xa3, 0x67];
    added.extend_from_slice(b"page_id");
    added.extend_from_slice(&[0x05, 0x64]);
    added.extend_from_slice(b"page");
    added.extend_from_slice(&[0x81, 0x07, 0x65]);
    added.extend_from_slice(b"extra");
    added.extend_from_slice(&[0x00]);
    assert_eq!(decode_admin(&page_push(&added)), Err(ProtocolError::Malformed));
}
