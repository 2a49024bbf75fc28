use mdns_parser::is_mdns_packet;
use mdns_parser::parse_mdns_answers;
use mdns_parser::parse_mdns_message;
use mdns_parser::parse_mdns_questions;
use mdns_parser::parse_name;
use mdns_parser::ByteReader;
use mdns_parser::DecodeError;
use mdns_parser::MDNSQueryClass;
use mdns_parser::MDNSRData;
use mdns_parser::MDNSRecordType;

// Query for _spotify-connect._tcp.local, type PTR, class IN.
const SPOTIFY_QUERY: [u8; 45] = [
    0, 0, 0, 0, 0, 1, 0, 0, 0, 0, 0, 0, 16, 95, 115, 112, 111, 116, 105, 102, 121, 45, 99, 111,
    110, 110, 101, 99, 116, 4, 95, 116, 99, 112, 5, 108, 111, 99, 97, 108, 0, 0, 12, 0, 1,
];

#[test]
fn simple_query_question_fields() {
    let message = parse_mdns_message(&SPOTIFY_QUERY).unwrap();
    assert_eq!(message.header.query_identifier, 0);
    assert_eq!(message.header.question_count, 1);
    let question = &message.questions[0];
    assert_eq!(question.name, "_spotify-connect._tcp.local");
    assert_eq!(question.question_type, MDNSRecordType::PTR);
    assert_eq!(question.question_class, MDNSQueryClass::IN);
    assert!(message.answers.is_empty());
}

#[test]
fn single_label_question_has_no_trailing_dot() {
    let mut payload = vec![0, 0, 0, 0, 0, 1, 0, 0, 0, 0, 0, 0];
    payload.extend_from_slice(&[16, 95, 115, 112, 111, 116, 105, 102, 121, 45, 99, 111, 110, 110,
        101, 99, 116, 0]);
    payload.extend_from_slice(&[0, 12, 0, 1]);
    let message = parse_mdns_message(&payload).unwrap();
    assert_eq!(message.questions[0].name, "_spotify-connect");
}

#[test]
fn compression_pointer_reuses_earlier_name() {
    // The spotify question, then one A answer whose owner is the pointer
    // `C0 0C`: offset 12, the start of the spotify name.
    let mut payload = SPOTIFY_QUERY.to_vec();
    payload[7] = 1; // answer_count = 1
    payload.extend_from_slice(&[192, 12]); // owner name
    payload.extend_from_slice(&[0, 1]); // type A
    payload.extend_from_slice(&[0, 1]); // class IN
    payload.extend_from_slice(&[0, 0, 0, 120]); // ttl
    payload.extend_from_slice(&[0, 4]); // rdlength
    payload.extend_from_slice(&[10, 0, 0, 42]); // rdata
    let message = parse_mdns_message(&payload).unwrap();
    assert_eq!(message.answers.len(), 1);
    let answer = &message.answers[0];
    assert_eq!(answer.name, "_spotify-connect._tcp.local");
    match &answer.rdata {
        MDNSRData::A { ipv4_address } => assert_eq!(ipv4_address, &vec![10, 0, 0, 42]),
        _ => panic!("expected an A record"),
    }
}

#[test]
fn ptr_answer_with_compressed_rdata() {
    // Owner _http._tcp.local at offset 0, type PTR, class IN, ttl 4500,
    // rdlength 6, rdata `03 "hub" C0 00`: the pointer resolves the owner
    // name, and the cursor advances exactly 6 rdata bytes.
    let payload: [u8; 34] = [
        5, 95, 104, 116, 116, 112, 4, 95, 116, 99, 112, 5, 108, 111, 99, 97, 108, 0, 0, 12, 0, 1,
        0, 0, 17, 148, 0, 6, 3, 104, 117, 98, 192, 0,
    ];
    let mut reader = ByteReader { bytes: payload.to_vec(), byte_index: 0 };
    let answers = parse_mdns_answers(&mut reader, 1).unwrap();
    assert_eq!(reader.byte_index, 34);
    assert_eq!(answers.len(), 1);
    let answer = &answers[0];
    assert_eq!(answer.name, "_http._tcp.local");
    assert_eq!(answer.answer_type, MDNSRecordType::PTR);
    assert_eq!(answer.answer_class, MDNSQueryClass::IN);
    assert_eq!(answer.ttl_seconds, 4500);
    assert_eq!(answer.rd_length, 6);
    match &answer.rdata {
        MDNSRData::PTR { domain_name } => assert_eq!(domain_name, "hub._http._tcp.local"),
        _ => panic!("expected a PTR record"),
    }
}

#[test]
fn srv_record_fields_are_big_endian() {
    // Owner hub._http._tcp.local written out at offset 12; the SRV target
    // `C0 10` points back to the _http._tcp.local suffix at offset 16.
    let payload: [u8; 52] = [
        0, 0, 0, 0, 0, 0, 0, 1, 0, 0, 0, 0, // header, answer_count = 1
        3, 104, 117, 98, // "hub"
        5, 95, 104, 116, 116, 112, // "_http"
        4, 95, 116, 99, 112, // "_tcp"
        5, 108, 111, 99, 97, 108, // "local"
        0, // terminator
        0, 33, // type SRV
        0, 1, // class IN
        0, 0, 0, 120, // ttl
        0, 8, // rdlength
        0, 0, 0, 0, 216, 71, 192, 16, // priority, weight, port 55367, target
    ];
    let message = parse_mdns_message(&payload).unwrap();
    let answer = &message.answers[0];
    assert_eq!(answer.name, "hub._http._tcp.local");
    match &answer.rdata {
        MDNSRData::SRV { priority, weight, port, target_domain_name } => {
            assert_eq!(*priority, 0);
            assert_eq!(*weight, 0);
            assert_eq!(*port, 55367);
            assert_eq!(target_domain_name, "_http._tcp.local");
        },
        _ => panic!("expected an SRV record"),
    }
}

fn question_with_class(hi: u8, lo: u8) -> Vec<u8> {
    let mut payload = vec![0, 0, 0, 0, 0, 1, 0, 0, 0, 0, 0, 0];
    payload.extend_from_slice(&[1, 97, 0]); // name "a"
    payload.extend_from_slice(&[0, 12]); // type PTR
    payload.extend_from_slice(&[hi, lo]);
    payload
}

#[test]
fn cache_flush_bit_is_masked() {
    let message = parse_mdns_message(&question_with_class(128, 1)).unwrap();
    assert_eq!(message.questions[0].question_class, MDNSQueryClass::IN);

    let message = parse_mdns_message(&question_with_class(128, 255)).unwrap();
    assert_eq!(message.questions[0].question_class, MDNSQueryClass::ANY);

    let err = parse_mdns_message(&question_with_class(128, 2)).unwrap_err();
    assert_eq!(err, DecodeError::UnknownClass);
}

#[test]
fn truncated_header_fails() {
    let payload: [u8; 11] = [0, 0, 132, 0, 0, 0, 0, 5, 0, 0, 0];
    let err = parse_mdns_message(&payload).unwrap_err();
    assert_eq!(err, DecodeError::Truncated);
}

#[test]
fn pointer_cycle_fails_with_bad_pointer() {
    // The name at offset 12 is `C0 0C`: a pointer to itself.
    let mut bytes = vec![0u8; 12];
    bytes.extend_from_slice(&[192, 12]);
    let mut reader = ByteReader { bytes, byte_index: 12 };
    let err = parse_name(&mut reader).unwrap_err();
    assert_eq!(err, DecodeError::BadPointer);
}

#[test]
fn empty_message_decodes_to_empty_sections() {
    let payload = [0u8; 12];
    let message = parse_mdns_message(&payload).unwrap();
    assert_eq!(message.header.question_count, 0);
    assert_eq!(message.header.answer_count, 0);
    assert_eq!(message.header.authority_count, 0);
    assert_eq!(message.header.additional_count, 0);
    assert!(message.questions.is_empty());
    assert!(message.answers.is_empty());
}

#[test]
fn name_decoding_terminates_on_deep_pointer_chain() {
    // A chain of pointers, each to the next pair, far beyond the chase
    // bound: decoding must stop with BadPointer rather than loop.
    let mut bytes = Vec::new();
    for k in 0..200u16 {
        let target = 2 * (k + 1);
        bytes.push(192 + (target >> 8) as u8);
        bytes.push((target & 0xff) as u8);
    }
    bytes.push(0);
    let mut reader = ByteReader { bytes, byte_index: 0 };
    let err = parse_name(&mut reader).unwrap_err();
    assert_eq!(err, DecodeError::BadPointer);
}

#[test]
fn questions_and_answers_match_header_counts() {
    let message = parse_mdns_message(&SPOTIFY_QUERY).unwrap();
    assert_eq!(message.questions.len(), message.header.question_count as usize);
    assert_eq!(message.answers.len(), message.header.answer_count as usize);
}

#[test]
fn decoder_is_deterministic_across_calls() {
    let first = parse_mdns_message(&SPOTIFY_QUERY).unwrap();
    let second = parse_mdns_message(&SPOTIFY_QUERY).unwrap();
    assert_eq!(first.questions[0].name, second.questions[0].name);
    assert_eq!(first.header.question_count, second.header.question_count);
}

#[test]
fn mdns_traffic_is_recognized_by_port() {
    assert!(is_mdns_packet(5353, 49152));
    assert!(is_mdns_packet(49152, 5353));
    assert!(!is_mdns_packet(53, 49152));
}

#[test]
fn question_parsing_reports_end_position() {
    let mut reader = ByteReader { bytes: SPOTIFY_QUERY.to_vec(), byte_index: 12 };
    let questions = parse_mdns_questions(&mut reader, 1).unwrap();
    assert_eq!(questions.len(), 1);
    assert_eq!(reader.byte_index, 45);
}
