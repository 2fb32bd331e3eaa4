use std::str::FromStr;

use agentx::encodings::{OctetString, SearchRangeList, VarBindList, ID};
use agentx::pdu::{self, Type as PduType};
use agentx_ifstack::error::ErrorKind;
use agentx_ifstack::mib::{Mib, SearchRange, Value, TABLE};
use agentx_ifstack::monitor::{publication, TableReader};
use agentx_ifstack::oid::Oid;
use agentx_ifstack::session::{
    acknowledge, answer_read, answer_test_set, dispatch, frame_header, open_request, proceed,
    register_request, reply, respond, time_left, validate_oid, Frame, FrameReader, Phase, Progress,
    ReadEvent, Session, Step, COMMIT_FAILED, NOT_WRITABLE, UNDO_FAILED,
};
use agentx_ifstack::time::Span;
use agentx_ifstack::wire::{Header, ResError, TestBinding, Type};

const NETWORK_ORDER: u8 = 1 << pdu::NETWORK_BYTE_ORDER;
const ROW: &str = "1.3.6.1.2.1.31.1.2.1.3";

fn frame(bytes: &[u8]) -> Frame {
    FrameReader::new(bytes[0])
        .accept(&bytes[1..20])
        .and_then(|reader| {
            assert_eq!(reader.missing(), bytes.len() - 20);
            reader.accept(&bytes[20..])
        })
        .unwrap()
        .finish()
        .expect("whole message")
}

fn table(rows: &[(u32, u32)]) -> TableReader {
    let mut tables = publication();
    tables.publish(Mib::new(rows.to_vec()));
    tables
}

fn id(text: &str) -> ID {
    ID::from_str(text).unwrap()
}

fn range(start: &str, end: &str) -> agentx::encodings::SearchRange {
    agentx::encodings::SearchRange::new(id(start), id(end))
}

fn header(flags: u8, session_id: u32) -> pdu::Header {
    let mut header = pdu::Header::new(PduType::Get);
    header.flags = flags;
    header.session_id = session_id;
    header.transaction_id = 0x0a0b0c0d;
    header.packet_id = 0x01020304;
    header
}

fn get(ty: PduType, ranges: Vec<agentx::encodings::SearchRange>, flags: u8) -> Vec<u8> {
    let mut request = pdu::Get::new(SearchRangeList(ranges));
    request.header = header(flags, 21);
    request.header.ty = ty;
    request.to_bytes().unwrap()
}

fn test_set(bindings: Vec<agentx::encodings::VarBind>, flags: u8) -> Vec<u8> {
    let mut request = pdu::TestSet::new(VarBindList(bindings));
    let ty = request.header.ty.clone();
    request.header = header(flags, 21);
    request.header.ty = ty;
    request.to_bytes().unwrap()
}

fn bare(ty: PduType, flags: u8, payload: &[u8]) -> Vec<u8> {
    let mut header = header(flags, 21);
    header.ty = ty;
    header.payload_length = payload.len() as u32;
    let mut bytes = header.to_bytes();
    bytes.extend_from_slice(payload);
    bytes
}

fn sent(step: Step) -> Vec<u8> {
    match step {
        Step::Send { bytes, refused } => {
            assert!(refused.is_none(), "{refused:?}");
            bytes
        }
        step => panic!("expected an answer, got {step:?}"),
    }
}

fn refused(step: Step) -> (Vec<u8>, String) {
    match step {
        Step::Send { bytes, refused } => (bytes, refused.expect("a reason").message()),
        step => panic!("expected an answer, got {step:?}"),
    }
}

fn error_code(bytes: &[u8], flags: u8) -> u16 {
    let code = [bytes[24], bytes[25]];
    if flags == 0 {
        u16::from_le_bytes(code)
    } else {
        u16::from_be_bytes(code)
    }
}

#[test]
fn every_read_pdu_reports_processing_error_before_the_first_inventory() {
    let tables = publication();
    let mut requests = vec![
        pdu::Get::new(SearchRangeList::default()),
        pdu::Get::new(SearchRangeList::default()),
    ];
    requests[1].header.ty = PduType::GetNext;

    for mut request in requests {
        let bytes = request.to_bytes().unwrap();
        let (response, _) = dispatch(&frame(&bytes), &tables).unwrap();
        assert_eq!(response.res_error, ResError::ProcessingError);
    }

    let mut request = pdu::GetBulk::new(SearchRangeList::default());
    let bytes = request.to_bytes().unwrap();
    let (response, _) = dispatch(&frame(&bytes), &tables).unwrap();
    assert_eq!(response.res_error, ResError::ProcessingError);
}

fn acknowledgement(request: &Header, session_id: u32, payload: usize, error: u16) -> Vec<u8> {
    let mut response = vec![1, PduType::Response.to_byte(), NETWORK_ORDER, 0];
    response.extend_from_slice(&session_id.to_be_bytes());
    response.extend_from_slice(&request.transaction_id.to_be_bytes());
    response.extend_from_slice(&request.packet_id.to_be_bytes());
    response.extend_from_slice(&(payload as u32).to_be_bytes());
    response.extend_from_slice(&31_223_731_u32.to_be_bytes());
    response.extend_from_slice(&error.to_be_bytes());
    response.resize(20 + payload, 0);
    response
}

#[test]
fn acknowledgement_accepts_a_response_carrying_a_var_bind_list() {
    for (open, session_id, payload) in [(true, 21_u32, 40_usize), (false, 21_u32, 32_usize)] {
        let request = if open {
            let mut request = pdu::Open::new(ID::default(), "agentx-ifstack");
            request.header.flags = NETWORK_ORDER;
            request.header.packet_id = 1;
            Header::from_bytes(&request.to_bytes().unwrap()).unwrap()
        } else {
            let mut request = pdu::Register::new(ID::try_from(TABLE.to_vec()).unwrap());
            request.header.flags = NETWORK_ORDER;
            request.header.session_id = session_id;
            request.header.packet_id = 2;
            Header::from_bytes(&request.to_bytes().unwrap()).unwrap()
        };
        let response = acknowledgement(&request, session_id, payload, 0);

        let acknowledged = acknowledge(&frame(&response), &request)
            .expect("a master response carrying a VarBindList is a valid acknowledgement");
        assert_eq!(acknowledged.session_id, session_id);
    }
}

#[test]
fn what_is_no_acknowledgement_is_refused() {
    let open = open_request().header;
    let opened = Header {
        session_id: 21,
        ..open
    };
    let register = register_request(&opened, 127).header;
    let good = acknowledgement(&register, 21, 8, 0);
    assert!(acknowledge(&frame(&good), &register).is_ok());
    let foreign = acknowledgement(&register, 22, 8, 0);
    assert!(acknowledge(&frame(&foreign), &register).is_err());
    let other_session = acknowledgement(&open, 22, 8, 0);
    assert!(acknowledge(&frame(&other_session), &open).is_ok());

    let mut wrong_type = good.clone();
    wrong_type[1] = PduType::Ping.to_byte();
    let mut wrong_packet = good.clone();
    wrong_packet[15] = 3;
    let mut wrong_transaction = good.clone();
    wrong_transaction[11] = 3;
    let short = acknowledgement(&register, 21, 4, 0)[..24].to_vec();
    for bytes in [wrong_type, wrong_packet, wrong_transaction, short, foreign] {
        let error = acknowledge(&frame(&bytes), &register).unwrap_err();
        assert_eq!(error.kind(), ErrorKind::InvalidData);
        assert_eq!(error.message(), "unexpected AgentX acknowledgement");
    }
    let unknown = acknowledgement(&register, 21, 8, 5);
    let error = acknowledge(&frame(&unknown), &register).unwrap_err();
    assert_eq!(error.message(), "invalid data");
    let rejected = acknowledgement(&register, 21, 8, 263);
    let error = acknowledge(&frame(&rejected), &register).unwrap_err();
    assert_eq!(error.kind(), ErrorKind::Other);
    assert_eq!(
        error.message(),
        "AgentX Register rejected: DuplicateRegistration"
    );
    let rejected = acknowledgement(&open, 0, 8, 256);
    let error = acknowledge(&frame(&rejected), &open).unwrap_err();
    assert_eq!(error.message(), "AgentX Open rejected: OpenFailed");
    let mut indexed = good;
    indexed[27] = 1;
    let error = acknowledge(&frame(&indexed), &register).unwrap_err();
    assert_eq!(
        error.message(),
        "nonzero administrative response error index"
    );
}

#[test]
fn a_session_is_opened_then_registered_then_served() {
    let tables = table(&[(9, 3)]);
    let (mut session, bytes) = Session::begin(200);
    assert_eq!(session.idle_timeout(), Some(Span::from_secs(5)));
    let open = pdu::Open::from_bytes(&bytes).unwrap();
    assert_eq!(open.header.packet_id, 1);
    assert_eq!(open.header.flags, NETWORK_ORDER);
    assert_eq!(open.header.payload_length as usize, bytes.len() - 20);
    assert_eq!(open.timeout.as_secs(), 5);
    assert_eq!(open.descr, OctetString("agentx-ifstack".to_owned()));
    assert!(open.id.is_null());

    let answer = acknowledgement(&session.request, 0x01020304, 8, 0);
    let bytes = match session.proceed(&frame(&answer), &tables).unwrap() {
        Progress::Send { bytes } => bytes,
        progress => panic!("expected a request, got {progress:?}"),
    };
    assert_eq!(session.phase, Phase::Registering);
    let register = pdu::Register::from_bytes(&bytes).unwrap();
    assert_eq!(register.header.session_id, 0x01020304);
    assert_eq!(register.header.packet_id, 2);
    assert_eq!(register.header.flags, NETWORK_ORDER);
    assert_eq!(register.priority, 200);
    assert_eq!(register.subtree, id("1.3.6.1.2.1.31.1.2"));
    assert_eq!(register.range_subid, 0);

    let before = session;
    let wrong = acknowledgement(&session.request, 5, 8, 0);
    assert!(session.proceed(&frame(&wrong), &tables).is_err());
    assert_eq!(session, before);
    let answer = acknowledgement(&session.request, 0x01020304, 8, 0);
    assert!(matches!(
        session.proceed(&frame(&answer), &tables).unwrap(),
        Progress::Registered
    ));
    assert_eq!(session.phase, Phase::Serving);
    assert_eq!(session.idle_timeout(), None);

    let mut ping = pdu::Ping::new();
    ping.header.session_id = 0x01020304;
    ping.header.packet_id = 77;
    let step = match session
        .proceed(&frame(&ping.to_bytes().unwrap()), &tables)
        .unwrap()
    {
        Progress::Serve(step) => step,
        progress => panic!("expected an answer, got {progress:?}"),
    };
    let response = pdu::Response::from_bytes(&sent(step)).unwrap();
    assert_eq!(response.header.packet_id, 77);
    assert_eq!(response.res_error, pdu::ResError::NoAgentXError);
}

#[test]
fn rows_are_read_and_searched_in_both_byte_orders() {
    let tables = table(&[(2, 10), (9, 3)]);
    for flags in [0, NETWORK_ORDER] {
        let bytes = get(
            PduType::Get,
            vec![
                range(&format!("{ROW}.9.3"), ""),
                range(&format!("{ROW}.9.4"), ""),
                range("1.3.6.1", ""),
            ],
            flags,
        );
        let answer = sent(respond(21, &frame(&bytes), &tables).unwrap());
        let response = pdu::Response::from_bytes(&answer).unwrap();
        assert_eq!(response.header.ty, PduType::Response);
        assert_eq!(response.header.flags, flags);
        assert_eq!(response.header.session_id, 21);
        assert_eq!(response.header.transaction_id, 0x0a0b0c0d);
        assert_eq!(response.header.packet_id, 0x01020304);
        assert_eq!(response.res_error, pdu::ResError::NoAgentXError);
        let bindings = response.vb.unwrap().0;
        assert_eq!(
            bindings,
            vec![
                agentx::encodings::VarBind::new(
                    id(&format!("{ROW}.9.3")),
                    agentx::encodings::Value::Integer(1)
                ),
                agentx::encodings::VarBind::new(
                    id(&format!("{ROW}.9.4")),
                    agentx::encodings::Value::NoSuchInstance
                ),
                agentx::encodings::VarBind::new(
                    id("1.3.6.1"),
                    agentx::encodings::Value::NoSuchObject
                ),
            ]
        );

        let mut bytes = get(
            PduType::GetNext,
            vec![
                range(ROW, ""),
                range(&format!("{ROW}.2.10"), ""),
                range(&format!("{ROW}.2.10"), ""),
                range(&format!("{ROW}.9.3"), ""),
                range(ROW, &format!("{ROW}.2.10")),
            ],
            flags,
        );
        // The start of the third range is inclusive.
        bytes[20 + 52 + 60 + 2] = 1;
        let answer = sent(respond(21, &frame(&bytes), &tables).unwrap());
        let bindings = pdu::Response::from_bytes(&answer).unwrap().vb.unwrap().0;
        let found: Vec<_> = bindings
            .iter()
            .map(|binding| (binding.name.to_string(), binding.data.clone()))
            .collect();
        assert_eq!(
            found,
            vec![
                (
                    format!("{ROW}.2.10"),
                    agentx::encodings::Value::Integer(1)
                ),
                (format!("{ROW}.9.3"), agentx::encodings::Value::Integer(1)),
                (
                    format!("{ROW}.2.10"),
                    agentx::encodings::Value::Integer(1)
                ),
                (
                    format!("{ROW}.9.3"),
                    agentx::encodings::Value::EndOfMibView
                ),
                (ROW.to_owned(), agentx::encodings::Value::EndOfMibView),
            ]
        );

        let mut bulk = pdu::GetBulk::new(SearchRangeList(vec![
            range(&format!("{ROW}.2.10"), ""),
            range(ROW, ""),
        ]));
        bulk.header = header(flags, 21);
        bulk.header.ty = PduType::GetBulk;
        bulk.non_repeaters = 1;
        bulk.max_repetitions = 0x0103;
        let bytes = bulk.to_bytes().unwrap();
        let answer = sent(respond(21, &frame(&bytes), &tables).unwrap());
        let bindings = pdu::Response::from_bytes(&answer).unwrap().vb.unwrap().0;
        let names: Vec<_> = bindings
            .iter()
            .map(|binding| binding.name.to_string())
            .collect();
        assert_eq!(
            names,
            [
                format!("{ROW}.9.3"),
                format!("{ROW}.2.10"),
                format!("{ROW}.9.3"),
                format!("{ROW}.9.3"),
            ]
        );
        assert_eq!(
            bindings[3].data,
            agentx::encodings::Value::EndOfMibView
        );
    }
}

#[test]
fn a_prefix_stands_for_the_components_of_the_internet() {
    let tables = table(&[(9, 3)]);
    let mut payload = vec![8, 2, 0, 0];
    for component in [1_u32, 31, 1, 2, 1, 3, 9, 3] {
        payload.extend_from_slice(&component.to_be_bytes());
    }
    payload.extend_from_slice(&[0, 0, 0, 0]);
    let bytes = bare(PduType::Get, NETWORK_ORDER, &payload);
    let answer = sent(respond(21, &frame(&bytes), &tables).unwrap());
    let bindings = pdu::Response::from_bytes(&answer).unwrap().vb.unwrap().0;
    assert_eq!(bindings[0].name.to_string(), format!("{ROW}.9.3"));
    assert_eq!(bindings[0].data, agentx::encodings::Value::Integer(1));
}

fn wire_oid(n_subid: u8, prefix: u8) -> Vec<u8> {
    let mut bytes = vec![n_subid, prefix, 0, 0];
    bytes.extend(vec![255; usize::from(n_subid) * 4]);
    bytes
}

#[test]
fn identifiers_that_are_too_long_are_answered_with_a_parse_error() {
    let tables = table(&[(9, 3)]);
    for flags in [0, NETWORK_ORDER] {
        for (n_subid, prefix, accepted) in [
            (128, 0, true),
            (129, 0, false),
            (123, 2, true),
            (124, 2, false),
            (255, 0, false),
            (255, 2, false),
        ] {
            for at_end in [false, true] {
                let long = wire_oid(n_subid, prefix);
                let short = wire_oid(0, 0);
                let payload = if at_end {
                    [short, long].concat()
                } else {
                    [long, short].concat()
                };
                for ty in [PduType::Get, PduType::GetNext, PduType::GetBulk] {
                    let payload = if ty == PduType::GetBulk {
                        [vec![0, 0, 0, 0], payload.clone()].concat()
                    } else {
                        payload.clone()
                    };
                    let bytes = bare(ty, flags, &payload);
                    let step = respond(21, &frame(&bytes), &tables).unwrap();
                    if accepted {
                        assert_eq!(error_code(&sent(step), flags), 0);
                    } else {
                        let (answer, reason) = refused(step);
                        assert_eq!(error_code(&answer, flags), 266);
                        assert_eq!(answer.len(), 28);
                        assert_eq!(reason, "OID exceeds 128 sub-identifiers");
                    }
                }
            }
            let mut payload = vec![0, 0, 0, 0];
            payload[if flags == 0 { 0 } else { 1 }] = 5;
            payload.extend(wire_oid(n_subid, prefix));
            let bytes = bare(PduType::TestSet, flags, &payload);
            let step = respond(21, &frame(&bytes), &tables).unwrap();
            if accepted {
                assert_eq!(error_code(&sent(step), flags), NOT_WRITABLE);
            } else {
                let (answer, reason) = refused(step);
                assert_eq!(error_code(&answer, flags), 266);
                assert_eq!(reason, "OID exceeds 128 sub-identifiers");
            }
        }
    }
    let long = vec![0; 129];
    assert!(validate_oid(&long).is_err());
    assert!(validate_oid(&long[1..].to_vec()).is_ok());
}

#[test]
fn strings_in_a_set_request_are_there_as_a_whole() {
    let tables = publication();
    for kind in [4, 64, 68] {
        for (length, content, accepted) in [
            (0_u32, vec![], true),
            (3, vec![b'a', b'b', b'c', 0], true),
            (4, vec![b'a', b'b', b'c', b'd'], true),
            (5, vec![b'a', b'b', b'c', b'd'], false),
            (u32::MAX, vec![b'a', b'b', b'c', b'd'], false),
            (u32::MAX - 3, vec![b'a', b'b', b'c', b'd'], false),
            (2, vec![0xc3, 0xa4, 0, 0], true),
            (2, vec![0xc3, b'a', 0, 0], false),
            (1, vec![0xff, 0, 0, 0], false),
        ] {
            for flags in [0, NETWORK_ORDER] {
                let mut payload = vec![0, 0, 0, 0];
                payload[if flags == 0 { 0 } else { 1 }] = kind;
                payload.extend(wire_oid(2, 0));
                payload.extend(if flags == 0 {
                    length.to_le_bytes()
                } else {
                    length.to_be_bytes()
                });
                payload.extend(&content);
                let bytes = bare(PduType::TestSet, flags, &payload);
                let step = respond(21, &frame(&bytes), &tables).unwrap();
                if accepted {
                    assert_eq!(error_code(&sent(step), flags), NOT_WRITABLE);
                } else {
                    let (answer, reason) = refused(step);
                    assert_eq!(error_code(&answer, flags), 266);
                    assert_eq!(reason, "invalid data");
                }
            }
        }
    }
}

#[test]
fn every_kind_of_value_takes_up_its_own_length() {
    let tables = publication();
    let lengths = [
        (2, 4),
        (5, 0),
        (65, 4),
        (66, 4),
        (67, 4),
        (70, 8),
        (128, 0),
        (129, 0),
        (130, 0),
    ];
    for (kind, length) in lengths {
        for rest in [0, 4, 8] {
            let mut payload = vec![kind, 0, 0, 0];
            payload.extend(wire_oid(1, 0));
            payload.extend(vec![0; rest]);
            let step = respond(21, &frame(&bare(PduType::TestSet, 0, &payload)), &tables).unwrap();
            if rest == length {
                assert_eq!(error_code(&sent(step), 0), NOT_WRITABLE, "{kind} {rest}");
            } else {
                let (answer, reason) = refused(step);
                assert_eq!(error_code(&answer, 0), 266);
                assert_eq!(reason, "invalid data");
            }
        }
    }
}

#[test]
fn requests_that_make_no_sense_are_answered_with_a_parse_error() {
    let tables = publication();
    let mut odd = get(PduType::Get, vec![range(ROW, "")], 0);
    odd[20 + 2] = 2;
    for (bytes, expected) in [
        (
            bare(PduType::Get, 0, &[0, 0, 0, 0]),
            "invalid data",
        ),
        (
            bare(PduType::GetNext, 0, &[2, 0, 0, 0, 1, 0, 0, 0]),
            "invalid data",
        ),
        (bare(PduType::GetBulk, 0, &[]), "invalid data"),
        (bare(PduType::TestSet, 0, &[9, 0, 0, 0, 0, 0, 0, 0]), "invalid data"),
        (
            odd,
            "invalid SearchRange include flag",
        ),
        (
            bare(PduType::CommitSet, 0, &[0, 0, 0, 0]),
            "Set phase has a payload",
        ),
        (
            bare(PduType::UndoSet, 0, &[0, 0, 0, 0]),
            "Set phase has a payload",
        ),
    ] {
        let (answer, reason) = refused(respond(21, &frame(&bytes), &tables).unwrap());
        assert_eq!(error_code(&answer, 0), 266);
        assert_eq!(reason, expected);
    }
}

#[test]
fn nothing_can_be_written() {
    let tables = table(&[(9, 3)]);
    let binding = |value| {
        agentx::encodings::VarBind::new(id(&format!("{ROW}.9.3")), value)
    };
    for flags in [0, NETWORK_ORDER] {
        for value in [
            agentx::encodings::Value::Integer(2),
            agentx::encodings::Value::OctetString(OctetString("six".to_owned())),
            agentx::encodings::Value::ObjectIdentifier(id("1.2.3")),
            agentx::encodings::Value::Counter64(9),
        ] {
            let bytes = test_set(vec![binding(value.clone()), binding(value)], flags);
            let answer = sent(respond(21, &frame(&bytes), &tables).unwrap());
            assert_eq!(error_code(&answer, flags), 17);
            let index = if flags == 0 { [1, 0] } else { [0, 1] };
            assert_eq!(answer[26..28], index);
            assert_eq!(answer.len(), 28);
        }
        let empty = test_set(vec![], flags);
        let answer = sent(respond(21, &frame(&empty), &tables).unwrap());
        assert_eq!(error_code(&answer, flags), 0);
        let commit = bare(PduType::CommitSet, flags, &[]);
        let answer = sent(respond(21, &frame(&commit), &tables).unwrap());
        assert_eq!(error_code(&answer, flags), COMMIT_FAILED);
        let undo = bare(PduType::UndoSet, flags, &[]);
        let answer = sent(respond(21, &frame(&undo), &tables).unwrap());
        assert_eq!(error_code(&answer, flags), UNDO_FAILED);
    }
    let long = agentx::encodings::Value::ObjectIdentifier(
        ID::try_from(vec![1; 129]).unwrap(),
    );
    let bytes = test_set(vec![binding(long)], 0);
    let (answer, _) = refused(respond(21, &frame(&bytes), &tables).unwrap());
    assert_eq!(error_code(&answer, 0), 266);
}

#[test]
fn other_requests_get_the_answers_of_the_protocol() {
    let tables = table(&[(9, 3)]);
    let ping = bare(PduType::Ping, NETWORK_ORDER, &[]);
    let answer = sent(respond(21, &frame(&ping), &tables).unwrap());
    assert_eq!(error_code(&answer, NETWORK_ORDER), 0);
    assert_eq!(answer.len(), 28);
    let answer = sent(respond(22, &frame(&ping), &tables).unwrap());
    assert_eq!(error_code(&answer, NETWORK_ORDER), 257);
    let context = bare(PduType::Get, 1 << pdu::NON_DEFAULT_CONTEXT, &[9, 9, 9, 9]);
    let answer = sent(respond(21, &frame(&context), &tables).unwrap());
    assert_eq!(error_code(&answer, 0), 262);
    assert_eq!(answer[2], 0);
    for ty in [PduType::Open, PduType::Notify, PduType::Response] {
        let answer = sent(respond(21, &frame(&bare(ty, 0, &[])), &tables).unwrap());
        assert_eq!(error_code(&answer, 0), 267);
    }
    let cleanup = bare(PduType::CleanupSet, 0, &[]);
    assert!(matches!(
        respond(21, &frame(&cleanup), &tables).unwrap(),
        Step::Ignore
    ));
    let cleanup = bare(PduType::CleanupSet, 0, &[0, 0, 0, 0]);
    let error = respond(21, &frame(&cleanup), &tables).unwrap_err();
    assert_eq!(error.message(), "CleanupSet has a payload");
    let close = bare(PduType::Close, NETWORK_ORDER, &[5, 0, 0, 0]);
    match respond(21, &frame(&close), &tables).unwrap() {
        Step::SendAndClose { bytes } => {
            assert_eq!(error_code(&bytes, NETWORK_ORDER), 0);
            assert_eq!(
                pdu::Response::from_bytes(&bytes).unwrap().header.packet_id,
                0x01020304
            );
        }
        step => panic!("expected the end, got {step:?}"),
    }
    for payload in [&[7, 0, 0, 0][..], &[0, 0, 0, 0], &[]] {
        let close = bare(PduType::Close, 0, payload);
        let error = respond(21, &frame(&close), &tables).unwrap_err();
        assert_eq!(error.kind(), ErrorKind::InvalidData);
        assert_eq!(error.message(), "invalid data");
    }
}

#[test]
fn what_was_read_is_answered_whatever_it_was_read_from() {
    let request = Header {
        version: 1,
        ty: Type::GetNext,
        flags: 0x1f,
        session_id: 1,
        transaction_id: 2,
        packet_id: 3,
        payload_length: 0,
    };
    let plain = reply(&request);
    assert_eq!(plain.flags, NETWORK_ORDER);
    assert_eq!(
        (plain.session_id, plain.transaction_id, plain.packet_id),
        (1, 2, 3)
    );
    let tables = table(&[(9, 3)]);
    let ranges = || {
        vec![SearchRange::new(Oid::new(vec![1]), Oid::new(vec![]))]
    };
    let (response, code) = answer_read(&request, Some(ranges()), 0, 0, &tables).unwrap();
    assert_eq!(code, None);
    let vars = response.vb.unwrap();
    assert_eq!(vars[0].data, Value::Integer(1));
    assert_eq!(vars[0].name.components[11..], [9, 3]);
    assert!(answer_read(&request, None, 0, 0, &tables).is_err());
    let (response, _) = answer_read(&request, Some(ranges()), 0, 0, &publication()).unwrap();
    assert_eq!(response.res_error, ResError::ProcessingError);
    let (response, code) = answer_test_set(
        &request,
        Some(vec![TestBinding {
            name: vec![1, 2],
            value: Some(vec![3]),
        }]),
    )
    .unwrap();
    assert_eq!((response.res_index, code), (1, Some(NOT_WRITABLE)));
    assert!(answer_test_set(&request, None).is_err());
}

#[test]
fn a_message_is_put_together_from_pieces() {
    let bytes = get(PduType::Get, vec![range(ROW, "")], NETWORK_ORDER);
    let mut reader = FrameReader::new(bytes[0]);
    let mut at = 1;
    while reader.missing() > 0 {
        assert_eq!(
            reader.missing(),
            if at < 20 { 20 - at } else { bytes.len() - at }
        );
        reader = proceed(reader, ReadEvent::Interrupted).unwrap();
        reader = proceed(reader, ReadEvent::Bytes(bytes[at..at + 1].to_vec())).unwrap();
        at += 1;
    }
    let whole = reader.finish().unwrap();
    assert_eq!(whole.bytes(), bytes);
    assert_eq!(whole.header().packet_id, 0x01020304);
    assert!(FrameReader::new(1).finish().is_none());
}

#[test]
fn a_message_that_is_not_completed_fails() {
    let error = proceed(FrameReader::new(1), ReadEvent::Bytes(vec![])).unwrap_err();
    assert_eq!(error.kind(), ErrorKind::UnexpectedEof);
    let error = proceed(FrameReader::new(1), ReadEvent::TimedOut).unwrap_err();
    assert_eq!(error.kind(), ErrorKind::TimedOut);
    assert!(error.message().contains("frame deadline"));
    let failure = agentx_ifstack::error::other("broken pipe".to_owned());
    let error = proceed(FrameReader::new(1), ReadEvent::Failed(failure)).unwrap_err();
    assert_eq!(error.message(), "broken pipe");
    let left = time_left(Span::from_millis(100), Span::from_millis(40)).unwrap();
    assert_eq!(left, Span::from_millis(60));
    let error = time_left(Span::from_millis(100), Span::from_millis(100)).unwrap_err();
    assert_eq!(error.kind(), ErrorKind::TimedOut);
    assert_eq!(error.message(), "AgentX PDU frame deadline exceeded");
}

#[test]
fn headers_that_cannot_begin_a_message_are_refused() {
    let good = bare(PduType::Ping, NETWORK_ORDER, &[]);
    let header = frame_header(&good).unwrap();
    assert_eq!(header.ty, Type::Ping);
    assert_eq!(header.session_id, 21);
    let mut version = good.clone();
    version[0] = 2;
    let mut odd = good.clone();
    odd[19] = 2;
    let mut large = good.clone();
    large[16..20].copy_from_slice(&(1024 * 1024 + 4_u32).to_be_bytes());
    for bytes in [version, odd, large] {
        let error = FrameReader::new(bytes[0])
            .accept(&bytes[1..20])
            .unwrap_err();
        assert_eq!(error.kind(), ErrorKind::InvalidData);
        assert_eq!(error.message(), "invalid AgentX version or payload length");
    }
    let mut largest = good.clone();
    largest[16..20].copy_from_slice(&(1024 * 1024_u32).to_be_bytes());
    assert_eq!(
        FrameReader::new(largest[0])
            .accept(&largest[1..20])
            .unwrap()
            .missing(),
        1024 * 1024
    );
    for code in [0, 19, 255] {
        let mut unknown = good.clone();
        unknown[1] = code;
        assert_eq!(
            frame_header(&unknown).unwrap_err().message(),
            "invalid data"
        );
    }
    assert!(frame_header(&good[..19]).is_err());
}

#[test]
fn every_kind_of_message_and_error_keeps_its_number_and_name() {
    for code in 1..=18_u8 {
        let mut bytes = bare(PduType::Ping, 0, &[]);
        bytes[1] = code;
        let outside = PduType::from_byte(code).unwrap();
        let header = Header::from_bytes(&bytes).unwrap();
        assert_eq!(header.ty.name(), format!("{outside:?}"));
    }
    for code in 0..=300_u16 {
        let outside =
            pdu::ResError::from_bytes(&code.to_be_bytes(), &agentx::ByteOrder::BigEndian);
        match ResError::from_code(code) {
            Some(error) => {
                assert_eq!(error.code(), code);
                assert_eq!(error.name(), format!("{:?}", outside.unwrap()));
            }
            None => assert!(outside.is_err()),
        }
    }
}
