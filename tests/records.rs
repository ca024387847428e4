use cfnts::records::{
    deserialize, serialize, serialize_frame, DeserializeError, NtsKeRecord, ParseFailure, Party,
};

fn round_trip(record: &NtsKeRecord) -> NtsKeRecord {
    let bytes = serialize(record);
    deserialize(Party::Client, &bytes).expect("a serialized record decodes")
}

#[test]
fn end_of_message_round_trip() {
    let bytes = serialize(&NtsKeRecord::EndOfMessage);
    assert_eq!(bytes, vec![0x80, 0, 0, 0]);
    assert!(matches!(round_trip(&NtsKeRecord::EndOfMessage), NtsKeRecord::EndOfMessage));
}

#[test]
fn next_protocol_round_trip() {
    let record = NtsKeRecord::NextProtocol(vec![0, 0x1234]);
    assert_eq!(serialize(&record), vec![0x80, 1, 0, 4, 0, 0, 0x12, 0x34]);
    match round_trip(&record) {
        NtsKeRecord::NextProtocol(v) => assert_eq!(v, vec![0, 0x1234]),
        other => panic!("unexpected {:?}", other),
    }
}

#[test]
fn aead_round_trip() {
    let record = NtsKeRecord::AeadAlgorithm(vec![15]);
    assert_eq!(serialize(&record), vec![0x80, 4, 0, 2, 0, 15]);
    match round_trip(&record) {
        NtsKeRecord::AeadAlgorithm(v) => assert_eq!(v, vec![15]),
        other => panic!("unexpected {:?}", other),
    }
}

#[test]
fn error_warning_port_round_trip() {
    match round_trip(&NtsKeRecord::Error(1)) {
        NtsKeRecord::Error(c) => assert_eq!(c, 1),
        other => panic!("unexpected {:?}", other),
    }
    match round_trip(&NtsKeRecord::Warning(0xBEEF)) {
        NtsKeRecord::Warning(c) => assert_eq!(c, 0xBEEF),
        other => panic!("unexpected {:?}", other),
    }
    let port = NtsKeRecord::Port(1234);
    assert_eq!(serialize(&port), vec![0, 7, 0, 2, 0x04, 0xD2]);
    match round_trip(&port) {
        NtsKeRecord::Port(p) => assert_eq!(p, 1234),
        other => panic!("unexpected {:?}", other),
    }
}

#[test]
fn cookie_and_server_round_trip() {
    match round_trip(&NtsKeRecord::NewCookie(vec![9, 8, 7])) {
        NtsKeRecord::NewCookie(c) => assert_eq!(c, vec![9, 8, 7]),
        other => panic!("unexpected {:?}", other),
    }
    match round_trip(&NtsKeRecord::NewCookie(vec![])) {
        NtsKeRecord::NewCookie(c) => assert!(c.is_empty()),
        other => panic!("unexpected {:?}", other),
    }
    let server = NtsKeRecord::Server("tíme.example.net".to_string());
    let bytes = serialize(&server);
    assert_eq!(bytes[0..2], [0, 6]);
    assert_eq!(bytes.len(), 4 + "tíme.example.net".len());
    match round_trip(&server) {
        NtsKeRecord::Server(s) => assert_eq!(s, "tíme.example.net"),
        other => panic!("unexpected {:?}", other),
    }
}

#[test]
fn critical_bit_and_type_preserved() {
    let body = vec![1u8, 2, 3];
    let framed = serialize_frame(true, 0x7FFF, &body);
    assert_eq!(framed, vec![0xFF, 0xFF, 0, 3, 1, 2, 3]);
    let framed = serialize_frame(false, 0x1234, &body);
    assert_eq!(framed, vec![0x12, 0x34, 0, 3, 1, 2, 3]);
    let long = vec![0u8; 65535];
    let framed = serialize_frame(true, 5, &long);
    assert_eq!(framed[0..4], [0x80, 5, 0xFF, 0xFF]);
    assert_eq!(framed.len(), 65539);
}

#[test]
fn unknown_criticality() {
    let not_critical = serialize_frame(false, 0x7F7F, &[1, 2]);
    assert_eq!(
        deserialize(Party::Client, &not_critical).unwrap_err(),
        DeserializeError::UnknownNotCriticalRecord
    );
    let critical = serialize_frame(true, 0x7F7F, &[1, 2]);
    assert_eq!(
        deserialize(Party::Client, &critical).unwrap_err(),
        DeserializeError::UnknownCriticalRecord
    );
}

#[test]
fn parse_failures() {
    let cases: Vec<(Vec<u8>, ParseFailure)> = vec![
        (vec![0x80, 0, 0, 1, 0], ParseFailure::EndOfMessageNotEmpty),
        (vec![0, 0, 0, 0], ParseFailure::EndOfMessageNotCritical),
        (vec![0x80, 1, 0, 3, 0, 0, 0], ParseFailure::OddLength),
        (vec![0x80, 4, 0, 1, 0], ParseFailure::OddLength),
        (vec![0x80, 2, 0, 3, 0, 0, 1], ParseFailure::WrongLength),
        (vec![0x80, 3, 0, 0], ParseFailure::WrongLength),
        (vec![0, 7, 0, 1, 5], ParseFailure::WrongLength),
        (vec![0, 6, 0, 2, 0xC3, 0x28], ParseFailure::InvalidUtf8),
    ];
    for (bytes, failure) in cases {
        assert_eq!(
            deserialize(Party::Client, &bytes).unwrap_err(),
            DeserializeError::Parsing(failure)
        );
    }
}

#[test]
fn criticality_of_known_types_is_accepted_either_way() {
    match deserialize(Party::Client, &[0x80, 5, 0, 1, 42]).unwrap() {
        NtsKeRecord::NewCookie(c) => assert_eq!(c, vec![42]),
        other => panic!("unexpected {:?}", other),
    }
    match deserialize(Party::Server, &[0, 1, 0, 2, 0, 0]).unwrap() {
        NtsKeRecord::NextProtocol(v) => assert_eq!(v, vec![0]),
        other => panic!("unexpected {:?}", other),
    }
}
