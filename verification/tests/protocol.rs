use opp::account::Account;
use opp::codec::{invalid, Decoder, Encoder, MAX_PAYLOAD};
use opp::environment::ClientContext;
use opp::framing::{
    client_negotiate, frame_header, normal_preamble, server_preamble, stop_request, stop_response,
    Control, FrameReader,
};
use opp::protocol::{
    decode_client_event, decode_request, decode_response, encode_client_event, encode_request,
    encode_response, ClientEvent, Diagnostic, ErrorCode, Frame, Request, Response, ServerPreamble,
    PROTOCOL_VERSION,
};
use opp::signals::is_caller_signal;

/// Sends a frame as one read after another of at most `size` bytes.
fn carried(frame: &Frame, size: usize) -> Frame {
    let mut bytes = frame_header(frame).unwrap();
    bytes.extend_from_slice(&frame.payload);
    let mut rest = bytes.as_slice();
    let first = size.min(8).min(rest.len());
    let controls = vec![Control::Rights(frame.descriptors)];
    let mut reader = FrameReader::start(rest[..first].to_vec(), false, &controls).unwrap();
    rest = &rest[first..];
    while reader.missing() > 0 {
        let next = size.min(reader.missing());
        reader.push(&rest[..next]).unwrap();
        rest = &rest[next..];
    }
    assert!(rest.is_empty());
    reader.finish()
}

fn sent_response(response: &Response) -> Response {
    decode_response(carried(&encode_response(response).unwrap(), 3)).unwrap()
}

#[test]
fn response_round_trip() {
    let expected = Response::Exec {
        exit_code: 124,
        diagnostic: Diagnostic::Timeout,
    };
    assert_eq!(sent_response(&expected), expected);
}

#[test]
fn error_round_trip() {
    assert_eq!(
        sent_response(&Response::Error(ErrorCode::AuthorizationRequired)),
        Response::Error(ErrorCode::AuthorizationRequired)
    );
}

#[test]
fn event_encoding_is_bounded() {
    let frame = encode_client_event(ClientEvent::Cancel(libc::SIGINT)).unwrap();
    assert_eq!(
        decode_client_event(&carried(&frame, 8)).unwrap(),
        ClientEvent::Cancel(libc::SIGINT)
    );
}

#[test]
fn rejects_invalid_cancellation_signals() {
    assert!(encode_client_event(ClientEvent::Cancel(i32::MAX)).is_err());
}

#[test]
fn incompatible_versions_are_rejected_before_a_request() {
    let (preamble, response) = server_preamble(&normal_preamble(PROTOCOL_VERSION + 1)).unwrap();
    assert_eq!(response, Some(normal_preamble(PROTOCOL_VERSION)));
    assert_eq!(preamble, ServerPreamble::Incompatible);
}

#[test]
fn preambles_are_exact() {
    assert_eq!(&normal_preamble(0x0102_0304), b"OPP\0\x01\x02\x03\x04");
    assert_eq!(&stop_request(), b"OPPSTOP\0");
    assert_eq!(&stop_response(), b"OPPSTOP\x01");
    assert_eq!(
        server_preamble(b"OPPSTOP\0").unwrap(),
        (ServerPreamble::Stop, None)
    );
    assert_eq!(
        server_preamble(b"OPP\0\0\0\0\x01").unwrap(),
        (
            ServerPreamble::Normal,
            Some(normal_preamble(PROTOCOL_VERSION))
        )
    );
    assert_eq!(
        server_preamble(b"OPPS\0\0\0\x01").unwrap_err().message,
        "invalid protocol preamble"
    );
    assert!(client_negotiate(b"OPP\0\0\0\0\x01").is_ok());
    for response in [b"OPP\0\0\0\0\x02", b"OPPSTOP\0"] {
        assert_eq!(
            client_negotiate(response).unwrap_err().message,
            "incompatible broker protocol"
        );
    }
}

#[test]
fn every_response_survives_the_wire() {
    let mut responses = vec![
        Response::Accepted,
        Response::NeedWarning,
        Response::Status(b"{}".to_vec()),
        Response::Status(Vec::new()),
    ];
    for diagnostic in [
        Diagnostic::Nothing,
        Diagnostic::Timeout,
        Diagnostic::Internal,
    ] {
        for exit_code in [0, 1, 255] {
            responses.push(Response::Exec {
                exit_code,
                diagnostic,
            });
        }
    }
    for number in 1..=8 {
        let code = ErrorCode::try_from(number).unwrap();
        assert_eq!(code.code(), number);
        responses.push(Response::Error(code));
    }
    for response in responses {
        assert_eq!(sent_response(&response), response);
    }
}

#[test]
fn responses_have_exact_bytes() {
    let frame = encode_response(&Response::Exec {
        exit_code: 124,
        diagnostic: Diagnostic::Timeout,
    })
    .unwrap();
    assert_eq!(frame_header(&frame).unwrap(), b"\x83\0\0\0\0\0\0\x05");
    assert_eq!(frame.payload, b"\0\0\0\x7c\x01");
    let frame = encode_response(&Response::Exec {
        exit_code: -2,
        diagnostic: Diagnostic::Nothing,
    })
    .unwrap();
    assert_eq!(frame.payload, b"\xff\xff\xff\xfe\0");
    assert_eq!(
        decode_response(frame).unwrap_err().message,
        "invalid command exit code"
    );
    assert_eq!(
        encode_response(&Response::Status(vec![0; MAX_PAYLOAD + 1]))
            .unwrap_err()
            .message,
        "protocol payload is too large"
    );
}

#[test]
fn malformed_responses_are_refused() {
    for (kind, payload, descriptors, message) in [
        (0x80, vec![0], 0, "invalid response frame"),
        (0x81, vec![0], 0, "invalid response frame"),
        (0x83, vec![0; 4], 0, "invalid response frame"),
        (0x83, vec![0, 0, 1, 0, 0], 0, "invalid command exit code"),
        (0x83, vec![0, 0, 0, 0, 3], 0, "unknown completion diagnostic"),
        (0x84, vec![], 0, "invalid response frame"),
        (0x84, vec![0], 0, "unknown protocol error code"),
        (0x84, vec![9], 0, "unknown protocol error code"),
        (0x85, vec![], 0, "invalid response frame"),
        (0x80, vec![], 1, "unexpected descriptors"),
    ] {
        let frame = Frame {
            kind,
            payload,
            descriptors,
        };
        assert_eq!(decode_response(frame).unwrap_err().message, message);
    }
}

#[test]
fn caller_signals_are_four() {
    let signals: Vec<i32> = (-1..130).filter(|signal| is_caller_signal(*signal)).collect();
    assert_eq!(
        signals,
        vec![libc::SIGHUP, libc::SIGINT, libc::SIGQUIT, libc::SIGTERM]
    );
    for signal in signals {
        let frame = encode_client_event(ClientEvent::Cancel(signal)).unwrap();
        assert_eq!(
            decode_client_event(&carried(&frame, 1)).unwrap(),
            ClientEvent::Cancel(signal)
        );
    }
    let frame = encode_client_event(ClientEvent::StreamsClosed).unwrap();
    assert_eq!(
        decode_client_event(&carried(&frame, 1)).unwrap(),
        ClientEvent::StreamsClosed
    );
}

#[test]
fn malformed_events_are_refused() {
    for (kind, payload, descriptors, message) in [
        (4, vec![0], 0, "invalid client event"),
        (5, vec![0, 0, 2], 0, "invalid client event"),
        (5, vec![0, 0, 0, 9], 0, "invalid cancellation signal"),
        (5, vec![0xff, 0xff, 0xff, 0xff], 0, "invalid cancellation signal"),
        (6, vec![], 0, "invalid client event"),
        (4, vec![], 2, "unexpected descriptors"),
    ] {
        let frame = Frame {
            kind,
            payload,
            descriptors,
        };
        assert_eq!(decode_client_event(&frame).unwrap_err().message, message);
    }
}

fn context() -> ClientContext {
    ClientContext {
        cwd: b"/tmp/\xff".to_vec(),
        environment: vec![
            (b"A".to_vec(), b"1".to_vec()),
            (b"B".to_vec(), Vec::new()),
            (b"A".to_vec(), b"\xfe=".to_vec()),
        ],
    }
}

fn same_context(left: &ClientContext, right: &ClientContext) -> bool {
    left.cwd == right.cwd && left.environment == right.environment
}

#[test]
fn requests_survive_the_wire() {
    for selector in [None, Some(String::new()), Some(String::from("Wörk"))] {
        let account = Account(selector);
        for shown in [false, true] {
            let frame = encode_request(&Request::Start {
                warning_shown: shown,
                account: account.clone(),
                op_path: String::from("/bin/öp"),
                context: context(),
            })
            .unwrap();
            match decode_request(&carried(&frame, 7)).unwrap() {
                Request::Start {
                    warning_shown,
                    account: received,
                    op_path,
                    context: read,
                } => {
                    assert_eq!(warning_shown, shown);
                    assert!(received.same(&account));
                    assert_eq!(op_path, "/bin/öp");
                    assert!(same_context(&read, &context()));
                }
                other => panic!("{other:?}"),
            }
        }
        let frame = encode_request(&Request::Status {
            account: account.clone(),
        })
        .unwrap();
        match decode_request(&carried(&frame, 1)).unwrap() {
            Request::Status { account: received } => assert!(received.same(&account)),
            other => panic!("{other:?}"),
        }
        let frame = encode_request(&Request::Exec {
            account: account.clone(),
            timeout_nanos: 600_000_000_000,
            arguments: vec![b"item".to_vec(), Vec::new(), b"\xff".to_vec()],
            context: context(),
        })
        .unwrap();
        assert_eq!(frame.descriptors, 3);
        match decode_request(&carried(&frame, 100)).unwrap() {
            Request::Exec {
                account: received,
                timeout_nanos,
                arguments,
                context: read,
            } => {
                assert!(received.same(&account));
                assert_eq!(timeout_nanos, 600_000_000_000);
                assert_eq!(
                    arguments,
                    vec![b"item".to_vec(), Vec::new(), b"\xff".to_vec()]
                );
                assert!(same_context(&read, &context()));
            }
            other => panic!("{other:?}"),
        }
    }
}

#[test]
fn a_status_request_has_exact_bytes() {
    let frame = encode_request(&Request::Status {
        account: Account(Some(String::from("ab"))),
    })
    .unwrap();
    assert_eq!(frame.kind, 2);
    assert_eq!(frame.payload, b"\x01\0\0\0\x02ab");
    assert_eq!(frame.descriptors, 0);
}

fn refused(kind: u8, payload: &[u8], descriptors: usize) -> &'static str {
    decode_request(&Frame {
        kind,
        payload: payload.to_vec(),
        descriptors,
    })
    .unwrap_err()
    .message
}

fn exec_payload(timeout: u64, count: u16, arguments: &[&[u8]], tail: &[u8]) -> Vec<u8> {
    let mut payload = vec![0];
    payload.extend_from_slice(&timeout.to_be_bytes());
    payload.extend_from_slice(&count.to_be_bytes());
    for argument in arguments {
        payload.extend_from_slice(&(argument.len() as u32).to_be_bytes());
        payload.extend_from_slice(argument);
    }
    payload.extend_from_slice(tail);
    payload
}

#[test]
fn malformed_requests_are_refused() {
    const ROOT: &[u8] = b"\0\0\0\x01/\0\0\0\0";
    assert_eq!(refused(9, b"", 0), "unknown request kind");
    assert_eq!(refused(2, b"\0", 1), "unexpected descriptors");
    assert_eq!(refused(1, b"", 3), "unexpected descriptors");
    assert_eq!(
        refused(3, b"", 2),
        "exec requires exactly three descriptors"
    );
    assert_eq!(refused(2, b"", 0), "truncated protocol payload");
    assert_eq!(refused(2, b"\x02", 0), "invalid account presence flag");
    assert_eq!(
        refused(2, b"\x01\0\0\0\x01\xff", 0),
        "invalid protocol UTF-8"
    );
    assert_eq!(refused(2, b"\0\0", 0), "trailing protocol data");
    assert_eq!(refused(1, b"\x02", 0), "invalid protocol boolean");
    assert_eq!(
        refused(1, b"\x01\0\0\0\0\0\0\0\0\x01x", 0),
        "invalid working directory"
    );
    assert_eq!(
        refused(1, b"\x01\0\0\0\0\0\0\0\0\x02/\0", 0),
        "invalid working directory"
    );
    assert_eq!(
        refused(1, b"\x01\0\0\0\0\0\0\0\0\x01/\0\0\0\x01\0\0\0", 0),
        "invalid environment count"
    );
    assert_eq!(
        refused(1, b"\x01\0\0\0\0\0\0\0\0\x01/\0\0\0\x01\0\0\0\0\0\0\0\0", 0),
        "invalid environment entry"
    );
    assert_eq!(
        refused(
            1,
            b"\x01\0\0\0\0\0\0\0\0\x01/\0\0\0\x01\0\0\0\x02a=\0\0\0\0",
            0
        ),
        "invalid environment entry"
    );
    for timeout in [999_999_999, 600_000_000_001] {
        assert_eq!(
            refused(3, &exec_payload(timeout, 0, &[], ROOT), 3),
            "exec timeout is out of range"
        );
    }
    assert_eq!(
        refused(3, &exec_payload(1_000_000_000, 257, &[], ROOT), 3),
        "too many arguments"
    );
    assert_eq!(
        refused(3, &exec_payload(1_000_000_000, 1, &[b"a\0"], ROOT), 3),
        "argument contains NUL"
    );
    assert_eq!(
        refused(
            3,
            &exec_payload(1_000_000_000, 1, &[&[b'x'; 65_537]], ROOT),
            3
        ),
        "argument payload is too large"
    );
    assert!(decode_request(&Frame {
        kind: 3,
        payload: exec_payload(1_000_000_000, 1, &[&[b'x'; 65_536]], ROOT),
        descriptors: 3,
    })
    .is_ok());
}

#[test]
fn oversized_requests_are_not_written() {
    let huge = ClientContext {
        cwd: vec![b'/'; MAX_PAYLOAD],
        environment: Vec::new(),
    };
    assert_eq!(
        encode_request(&Request::Start {
            warning_shown: true,
            account: Account(None),
            op_path: String::new(),
            context: huge,
        })
        .unwrap_err()
        .message,
        "protocol payload is too large"
    );
    assert_eq!(
        encode_request(&Request::Exec {
            account: Account(None),
            timeout_nanos: 1_000_000_000,
            arguments: vec![Vec::new(); 65_536],
            context: context(),
        })
        .unwrap_err()
        .message,
        "too many arguments"
    );
}

#[test]
fn headers_are_checked() {
    let started = |bytes: &[u8]| FrameReader::start(bytes.to_vec(), false, &Vec::new());
    for (header, message) in [
        (b"\x02\x01\0\0\0\0\0\0", "nonzero protocol header flags"),
        (b"\x02\0\0\x01\0\0\0\0", "nonzero protocol header flags"),
        (b"\x02\0\0\0\0\x20\0\x01", "protocol payload is too large"),
    ] {
        assert_eq!(started(header).err().unwrap().message, message);
        let mut reader = started(&header[..5]).unwrap();
        assert_eq!(reader.missing(), 3);
        assert_eq!(reader.push(&header[5..]).unwrap_err().message, message);
    }
    assert_eq!(started(b"").err().unwrap().message, "broker disconnected");
    assert_eq!(
        FrameReader::start(vec![1], true, &Vec::new())
            .err()
            .unwrap()
            .message,
        "truncated descriptor message"
    );
    assert_eq!(
        FrameReader::start(vec![1], false, &vec![Control::Rights(1), Control::Other])
            .err()
            .unwrap()
            .message,
        "unexpected control message"
    );
    let reader = FrameReader::start(
        b"\x02\0\0\0\0\0\0\0".to_vec(),
        false,
        &vec![Control::Rights(1), Control::Rights(2)],
    )
    .unwrap();
    assert_eq!(reader.missing(), 0);
    assert_eq!(reader.finish().descriptors, 3);
    let full = started(b"\x02\0\0\0\0\x20\0\0").unwrap();
    assert_eq!(full.missing(), MAX_PAYLOAD);
}

#[test]
fn fields_are_written_and_read() {
    let mut encoder = Encoder::new();
    encoder.u8(1);
    encoder.u16(0x0203);
    encoder.u32(0x0405_0607);
    encoder.u64(0x0809_0a0b_0c0d_0e0f);
    encoder.bytes(b"xy").unwrap();
    encoder.string("ü").unwrap();
    encoder.account(&Account(None)).unwrap();
    encoder.context(&context()).unwrap();
    let payload = encoder.finish().unwrap();
    assert_eq!(
        &payload[..22],
        b"\x01\x02\x03\x04\x05\x06\x07\x08\x09\x0a\x0b\x0c\x0d\x0e\x0f\0\0\0\x02xy\0"
    );
    let mut decoder = Decoder::new(&payload);
    assert!(decoder.boolean().unwrap());
    assert_eq!(decoder.u16().unwrap(), 0x0203);
    assert_eq!(decoder.u32().unwrap(), 0x0405_0607);
    assert_eq!(decoder.u64().unwrap(), 0x0809_0a0b_0c0d_0e0f);
    assert_eq!(decoder.bytes().unwrap(), b"xy");
    assert_eq!(decoder.string().unwrap(), "ü");
    assert!(decoder.account().unwrap().same(&Account(None)));
    assert!(decoder.end().is_err());
    assert!(same_context(&decoder.context().unwrap(), &context()));
    assert!(decoder.end().is_ok());
    assert_eq!(
        decoder.u8().unwrap_err().message,
        "truncated protocol payload"
    );
    let mut decoder = Decoder::new(b"ab");
    assert_eq!(decoder.take(1).unwrap(), b"a");
    assert_eq!(
        decoder.take(usize::MAX).unwrap_err().message,
        "protocol field overflow"
    );
    assert_eq!(invalid("text").message, "text");
}

#[test]
fn reading_goes_on_behind_what_was_refused() {
    let mut decoder = Decoder::new(&[7, 1, 2, 0]);
    assert!(decoder.boolean().is_err());
    assert_eq!(decoder.boolean().ok(), Some(true));
    assert!(decoder.account().is_err());
    assert!(decoder.u16().is_err());
    assert_eq!(decoder.u8().ok(), Some(0));
    assert!(decoder.end().is_ok());

    let mut decoder = Decoder::new(&[0, 0, 0, 9, 5]);
    assert!(decoder.bytes().is_err());
    assert_eq!(decoder.u8().ok(), Some(5));

    let mut decoder = Decoder::new(&[0, 0, 0, 1, 0xff, 6]);
    assert!(decoder.string().is_err());
    assert_eq!(decoder.u8().ok(), Some(6));

    let mut decoder = Decoder::new(b"\0\0\0\x01x\0\0\0\x08");
    assert!(decoder.context().is_err());
    assert_eq!(decoder.u32().ok(), Some(8));
}
