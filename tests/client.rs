use cfnts::client::{
    assemble_result, body_length, client_request, exporter_context, ke_port, new_state,
    process_record, receive_record, select_address, ClientConfig, NtsKeError, NtsKeys,
    ReceivedNtsKeRecordState,
};
use cfnts::records::{serialize, serialize_frame, NtsKeRecord, ParseFailure};

fn keys() -> NtsKeys {
    NtsKeys { c2s: vec![1; 32], s2c: vec![2; 32] }
}

fn feed(records: &[NtsKeRecord]) -> Result<ReceivedNtsKeRecordState, NtsKeError> {
    let mut state = new_state();
    for record in records {
        assert!(!state.finished);
        let frame = serialize(record);
        assert_eq!(body_length(&frame[0..4]), frame.len() - 4);
        receive_record(&mut state, &frame)?;
    }
    Ok(state)
}

#[test]
fn minimal_handshake() {
    let state = feed(&[
        NtsKeRecord::NextProtocol(vec![0]),
        NtsKeRecord::AeadAlgorithm(vec![15]),
        NtsKeRecord::EndOfMessage,
    ])
    .unwrap();
    assert!(state.finished);
    let host = "time.cloudflare.com".to_string();
    let result = assemble_result(state, &host, false, keys());
    assert_eq!(result.next_protocols, vec![0]);
    assert_eq!(result.aead_scheme, 15);
    assert_eq!(result.next_server, host);
    assert_eq!(result.next_port, 123);
    assert!(result.cookies.is_empty());
    assert_eq!(result.keys.c2s, vec![1; 32]);
    assert!(!result.use_ipv6);
}

#[test]
fn cookies_and_server_redirect() {
    let state = feed(&[
        NtsKeRecord::NextProtocol(vec![0]),
        NtsKeRecord::AeadAlgorithm(vec![15]),
        NtsKeRecord::NewCookie(vec![0xC1]),
        NtsKeRecord::NewCookie(vec![0xC2, 0xC2]),
        NtsKeRecord::Server("time.example.net".to_string()),
        NtsKeRecord::Port(1234),
        NtsKeRecord::EndOfMessage,
    ])
    .unwrap();
    let result = assemble_result(state, &"ke.example.net".to_string(), true, keys());
    assert_eq!(result.cookies, vec![vec![0xC1], vec![0xC2, 0xC2]]);
    assert_eq!(result.next_server, "time.example.net");
    assert_eq!(result.next_port, 1234);
    assert!(result.use_ipv6);
}

#[test]
fn server_error() {
    let err = feed(&[NtsKeRecord::Error(1)]).unwrap_err();
    assert_eq!(err, NtsKeError::ServerError(1));
}

#[test]
fn unknown_critical_record() {
    let mut state = new_state();
    let frame = serialize_frame(true, 0x1234, &[0, 1]);
    let err = receive_record(&mut state, &frame).unwrap_err();
    assert_eq!(err, NtsKeError::UnknownCriticalRecord);
}

#[test]
fn unknown_not_critical_record_is_skipped() {
    let mut state = new_state();
    let frame = serialize_frame(false, 0x1234, &[0, 1]);
    receive_record(&mut state, &frame).unwrap();
    assert!(!state.finished);
    assert!(state.cookies.is_empty());
}

#[test]
fn parse_failure_ends_handshake() {
    let mut state = new_state();
    let err = receive_record(&mut state, &[0, 7, 0, 1, 9]).unwrap_err();
    assert_eq!(err, NtsKeError::ParseFailure(ParseFailure::WrongLength));
}

#[test]
fn end_of_message_finishes() {
    let mut state = new_state();
    process_record(NtsKeRecord::Warning(3), &mut state).unwrap();
    assert!(!state.finished);
    process_record(NtsKeRecord::EndOfMessage, &mut state).unwrap();
    assert!(state.finished);
}

#[test]
fn defaults_fill_in() {
    let state = feed(&[NtsKeRecord::EndOfMessage]).unwrap();
    let result = assemble_result(state, &"ke.example.org".to_string(), false, keys());
    assert_eq!(result.next_port, 123);
    assert_eq!(result.next_server, "ke.example.org");
    assert_eq!(result.aead_scheme, 0);
    assert!(result.next_protocols.is_empty());
}

#[test]
fn last_server_and_port_win() {
    let state = feed(&[
        NtsKeRecord::Server("a.example".to_string()),
        NtsKeRecord::Port(1),
        NtsKeRecord::Server("b.example".to_string()),
        NtsKeRecord::Port(2),
        NtsKeRecord::AeadAlgorithm(vec![15, 16]),
        NtsKeRecord::AeadAlgorithm(vec![17]),
        NtsKeRecord::EndOfMessage,
    ])
    .unwrap();
    assert_eq!(state.aead_scheme, vec![15, 16, 17]);
    let result = assemble_result(state, &"ke".to_string(), false, keys());
    assert_eq!(result.next_server, "b.example");
    assert_eq!(result.next_port, 2);
    assert_eq!(result.aead_scheme, 15);
}

#[test]
fn request_bytes() {
    assert_eq!(
        client_request(),
        vec![0x80, 1, 0, 2, 0, 0, 0x80, 4, 0, 2, 0, 15, 0x80, 0, 0, 0]
    );
}

#[test]
fn exporter_contexts() {
    assert_eq!(exporter_context(0, 15, 0), vec![0, 0, 0, 15, 0]);
    assert_eq!(exporter_context(0x0102, 0x0304, 1), vec![1, 2, 3, 4, 1]);
}

#[test]
fn ports_and_addresses() {
    let config = ClientConfig { host: "h".to_string(), port: None, use_ipv6: false };
    assert_eq!(ke_port(&config), 4460);
    let config = ClientConfig { host: "h".to_string(), port: Some(1), use_ipv6: false };
    assert_eq!(ke_port(&config), 1);
    assert_eq!(select_address(&[true, false, false], false), Ok(1));
    assert_eq!(select_address(&[false, true], true), Ok(1));
    assert_eq!(select_address(&[false], true), Err(NtsKeError::NoIpv6AddrFound));
    assert_eq!(select_address(&[true], false), Err(NtsKeError::NoIpv4AddrFound));
    assert_eq!(select_address(&[], false), Err(NtsKeError::NoIpv4AddrFound));
}
