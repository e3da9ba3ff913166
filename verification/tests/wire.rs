use tool_router::descriptor::{FieldRule, ToolDescriptor};
use tool_router::dispatcher::InvocationRequest;
use tool_router::endpoint::{encode_frame, next_frame, refuse_frame, FrameBounds, Request, Response};
use tool_router::error::{ErrorKind, InvocationError, InvocationResult};
use tool_router::router::{BuiltinRouter, EchoRouter, MemoryRouter};
use tool_router::server::Server;
use tool_router::value::{Field, Value, ValueKind};
use tool_router::wire::{
    decode_request, encode_request, encode_response, frame_response, put_u32, put_value, read_u32,
    read_value,
};

fn call(id: &str, tool: &str, arguments: Vec<Field>) -> Request {
    Request::CallTool(InvocationRequest {
        request_id: id.to_string(),
        tool_name: tool.to_string(),
        arguments,
    })
}

#[test]
fn list_request_bytes() {
    let request = Request::ListTools { id: "ab".to_string() };
    let bytes = encode_request(&request);
    assert_eq!(bytes, vec![1, 0, 0, 0, 2, b'a', b'b']);
    assert_eq!(decode_request(&bytes), Some(request));
    assert_eq!(
        decode_request(&[1, 0, 0, 0, 0]),
        Some(Request::ListTools { id: String::new() })
    );
}

#[test]
fn call_request_bytes() {
    let request = call(
        "7",
        "echo",
        vec![
            Field::new("text", Value::Text("hi".to_string())),
            Field::new("n", Value::Int(-2)),
            Field::new("b", Value::Bool(true)),
            Field::new("z", Value::Null),
        ],
    );
    let bytes = encode_request(&request);
    let expected: Vec<u8> = vec![
        2, 0, 0, 0, 1, b'7', 0, 0, 0, 4, b'e', b'c', b'h', b'o', 0, 0, 0, 4, // head
        0, 0, 0, 4, b't', b'e', b'x', b't', 3, 0, 0, 0, 2, b'h', b'i', // text
        0, 0, 0, 1, b'n', 2, 255, 255, 255, 255, 255, 255, 255, 254, // n
        0, 0, 0, 1, b'b', 1, 1, // b
        0, 0, 0, 1, b'z', 0, // z
    ];
    assert_eq!(bytes, expected);
    assert_eq!(decode_request(&bytes), Some(request));
}

#[test]
fn requests_come_back_as_written() {
    let requests = vec![
        Request::ListTools { id: "".to_string() },
        Request::ListTools { id: "héllo wörld ✓".to_string() },
        call("", "", Vec::new()),
        call("id", "tool", vec![Field::new("", Value::Text(String::new()))]),
        call(
            "id",
            "tool",
            vec![
                Field::new("min", Value::Int(i64::MIN)),
                Field::new("max", Value::Int(i64::MAX)),
                Field::new("zero", Value::Int(0)),
                Field::new("one", Value::Int(1)),
                Field::new("big", Value::Int(4294967296)),
                Field::new("f", Value::Bool(false)),
                Field::new("t", Value::Bool(true)),
                Field::new("same", Value::Null),
                Field::new("same", Value::Text("日本語".to_string())),
            ],
        ),
    ];
    for request in requests {
        let bytes = encode_request(&request);
        assert_eq!(decode_request(&bytes), Some(request));
    }
}

#[test]
fn bodies_that_are_no_request() {
    let good = encode_request(&call("7", "echo", vec![Field::new("t", Value::Bool(true))]));
    assert!(decode_request(&good).is_some());
    for cut in 0..good.len() {
        assert_eq!(decode_request(&good[..cut]), None);
    }
    let mut longer = good.clone();
    longer.push(0);
    assert_eq!(decode_request(&longer), None);
    assert_eq!(decode_request(&[]), None);
    assert_eq!(decode_request(&[0]), None);
    assert_eq!(decode_request(&[3, 0, 0, 0, 0]), None);
    assert_eq!(decode_request(&[129, 0, 0, 0, 0]), None);
    assert_eq!(decode_request(&[1, 0, 0, 0, 1, 0xff]), None);
    assert_eq!(decode_request(&[1, 0, 0, 0, 2, 0xc3, 0x28]), None);
    assert_eq!(decode_request(&[1, 0, 0, 0, 1, 0xc3]), None);
    assert_eq!(decode_request(&[1, 0, 0, 0, 3, 0xed, 0xa0, 0x80]), None);
    assert_eq!(
        decode_request(&[1, 0, 0, 0, 2, 0xc3, 0xa9]),
        Some(Request::ListTools { id: "é".to_string() })
    );
    let mut bad_bool = good.clone();
    let last = bad_bool.len() - 1;
    bad_bool[last] = 2;
    assert_eq!(decode_request(&bad_bool), None);
    let mut bad_kind = good.clone();
    bad_kind[last - 1] = 4;
    assert_eq!(decode_request(&bad_kind), None);
    assert_eq!(decode_request(&[2, 0, 0, 0, 0, 0, 0, 0, 0, 255, 255, 255, 255]), None);
    assert_eq!(decode_request(&[2, 0, 0, 0, 0, 0, 0, 0, 0, 0, 0, 0, 1]), None);
}

#[test]
fn numbers_and_values_on_the_wire() {
    let mut out = vec![9u8];
    put_u32(&mut out, 0x01020304);
    assert_eq!(out, vec![9, 1, 2, 3, 4]);
    assert_eq!(read_u32(&out, 1), Some((0x01020304, 5)));
    assert_eq!(read_u32(&out, 2), None);
    assert_eq!(read_u32(&[255, 255, 255, 255], 0), Some((4294967295, 4)));
    let mut out = Vec::new();
    put_value(&mut out, &Value::Int(-1));
    assert_eq!(out, vec![2, 255, 255, 255, 255, 255, 255, 255, 255]);
    assert_eq!(read_value(&out, 0), Some((Value::Int(-1), 9)));
    let mut out = Vec::new();
    put_value(&mut out, &Value::Int(258));
    assert_eq!(out, vec![2, 0, 0, 0, 0, 0, 0, 1, 2]);
    assert_eq!(read_value(&out, 0), Some((Value::Int(258), 9)));
    assert_eq!(read_value(&out[..8], 0), None);
    assert_eq!(read_value(&[0], 0), Some((Value::Null, 1)));
    assert_eq!(read_value(&[0], 1), None);
    assert_eq!(read_value(&[1, 0], 0), Some((Value::Bool(false), 2)));
    assert_eq!(read_value(&[1], 0), None);
}

#[test]
fn response_bytes() {
    let payload = Response::Answer(InvocationResult {
        request_id: "7".to_string(),
        outcome: Ok(Value::Text("hi".to_string())),
    });
    assert_eq!(
        encode_response(&payload),
        vec![130, 0, 0, 0, 1, b'7', 3, 0, 0, 0, 2, b'h', b'i']
    );
    let error = Response::Answer(InvocationResult {
        request_id: "7".to_string(),
        outcome: Err(InvocationError::about(ErrorKind::Timeout, "late", "x")),
    });
    let mut expected: Vec<u8> = vec![131, 0, 0, 0, 1, b'7', 0, 0, 0, 7];
    expected.extend(b"Timeout");
    expected.extend([0, 0, 0, 4]);
    expected.extend(b"late");
    expected.extend([1, 0, 0, 0, 1, b'x']);
    assert_eq!(encode_response(&error), expected);
    let plain = Response::Answer(InvocationResult {
        request_id: String::new(),
        outcome: Err(InvocationError::plain(ErrorKind::UnknownTool, "")),
    });
    let mut expected: Vec<u8> = vec![131, 0, 0, 0, 0, 0, 0, 0, 11];
    expected.extend(b"UnknownTool");
    expected.extend([0, 0, 0, 0, 0]);
    assert_eq!(encode_response(&plain), expected);
    let tools = Response::Tools {
        id: "1".to_string(),
        tools: vec![
            ToolDescriptor::new(
                "t",
                "d",
                vec![
                    FieldRule::new("a", ValueKind::Text, true),
                    FieldRule::new("b", ValueKind::Int, false),
                ],
                Some(ValueKind::Bool),
            ),
            ToolDescriptor::new("u", "", Vec::new(), None),
        ],
    };
    let expected: Vec<u8> = vec![
        129, 0, 0, 0, 1, b'1', 0, 0, 0, 2, // two tools
        0, 0, 0, 1, b't', 0, 0, 0, 1, b'd', 0, 0, 0, 2, // t, d, two rules
        0, 0, 0, 1, b'a', 3, 1, 0, 0, 0, 1, b'b', 2, 0, 1, 1, // rules, output
        0, 0, 0, 1, b'u', 0, 0, 0, 0, 0, 0, 0, 0, 0, // u
    ];
    assert_eq!(encode_response(&tools), expected);
}

#[test]
fn frames_in_frames_out() {
    let routers =
        vec![BuiltinRouter::Echo(EchoRouter::new()), BuiltinRouter::Memory(MemoryRouter::new())];
    let mut server = match Server::build(routers, 1000) {
        Ok(server) => server,
        Err(e) => panic!("the server did not start: {:?}", e),
    };
    let hi = encode_request(&call("2", "echo", vec![Field::new("text", Value::Text("hi".into()))]));
    let framed = encode_frame(&hi);
    let body = match next_frame(&framed) {
        FrameBounds::Frame { start, end } => &framed[start..end],
        other => panic!("no frame: {:?}", other),
    };
    assert_eq!(
        server.respond("s", body, 0),
        encode_response(&Response::Answer(InvocationResult {
            request_id: "2".to_string(),
            outcome: Ok(Value::Text("hi".to_string())),
        }))
    );
    let missing = encode_request(&call("3", "echo", Vec::new()));
    assert_eq!(
        server.respond("s", &missing, 0),
        encode_response(&Response::Answer(InvocationResult {
            request_id: "3".to_string(),
            outcome: Err(InvocationError::about(
                ErrorKind::InvalidArguments,
                "required field is missing",
                "text"
            )),
        }))
    );
    assert_eq!(server.respond("s", &[7, 7, 7], 0), encode_response(&refuse_frame()));
    let mut refused: Vec<u8> = vec![131, 0, 0, 0, 0, 0, 0, 0, 14];
    refused.extend(b"TransportError");
    refused.extend([0, 0, 0, 30]);
    refused.extend(b"the frame could not be decoded");
    refused.push(0);
    assert_eq!(server.respond("s", &[], 0), refused);
    let listed = server.respond("s", &encode_request(&Request::ListTools { id: "9".into() }), 0);
    assert_eq!(&listed[..10], &[129, 0, 0, 0, 1, b'9', 0, 0, 0, 4]);
}

#[test]
fn response_in_a_frame() {
    let short = Response::Answer(InvocationResult {
        request_id: "7".to_string(),
        outcome: Ok(Value::Text("hi".to_string())),
    });
    assert_eq!(frame_response(&short), Some(encode_frame(&encode_response(&short))));
    assert_eq!(
        frame_response(&short),
        Some(vec![0, 0, 0, 13, 130, 0, 0, 0, 1, b'7', 3, 0, 0, 0, 2, b'h', b'i'])
    );
    let long = Response::Answer(InvocationResult {
        request_id: "8".to_string(),
        outcome: Ok(Value::Text("x".repeat(1048576))),
    });
    let in_its_place = Response::Answer(InvocationResult {
        request_id: "8".to_string(),
        outcome: Err(InvocationError::plain(
            ErrorKind::RouterInternalError,
            "the response is too long for a frame",
        )),
    });
    assert_eq!(frame_response(&long), Some(encode_frame(&encode_response(&in_its_place))));
    let just_fits = Response::Answer(InvocationResult {
        request_id: "9".to_string(),
        outcome: Ok(Value::Text("x".repeat(1048576 - 11))),
    });
    let framed = frame_response(&just_fits);
    assert_eq!(framed.map(|f| f.len()), Some(1048576 + 4));
    let hopeless = Response::Answer(InvocationResult {
        request_id: "i".repeat(1048576),
        outcome: Ok(Value::Null),
    });
    assert_eq!(frame_response(&hopeless), None);
}
