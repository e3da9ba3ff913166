use tool_router::dispatcher::InvocationRequest;
use tool_router::endpoint::{
    encode_frame, next_frame, Endpoint, FrameBounds, Request, Response, Step, MAX_FRAME_LEN,
};
use tool_router::error::{ErrorKind, InvocationError, InvocationResult};
use tool_router::registry::Registry;
use tool_router::router::{EchoRouter, Router};
use tool_router::server::Server;
use tool_router::value::{Field, Value, ValueKind};

fn echo_call(id: &str, arguments: Vec<Field>) -> Request {
    Request::CallTool(InvocationRequest {
        request_id: id.to_string(),
        tool_name: "echo".to_string(),
        arguments,
    })
}

#[test]
fn end_to_end_echo() {
    let mut server = match Server::build(vec![EchoRouter::new()], 1000) {
        Ok(server) => server,
        Err(e) => panic!("the server did not start: {:?}", e),
    };
    match server.handle("s", Request::ListTools { id: "1".to_string() }, 0) {
        Response::Tools { id, tools } => {
            assert_eq!(id, "1");
            assert_eq!(tools.len(), 1);
            assert_eq!(tools[0].name, "echo");
            assert_eq!(tools[0].input_schema.len(), 1);
            assert_eq!(tools[0].input_schema[0].name, "text");
            assert_eq!(tools[0].input_schema[0].kind, ValueKind::Text);
            assert!(tools[0].input_schema[0].required);
        },
        other => panic!("no list of tools: {:?}", other),
    }
    let hi = echo_call("2", vec![Field::new("text", Value::Text("hi".to_string()))]);
    assert_eq!(
        server.handle("s", hi, 0),
        Response::Answer(InvocationResult {
            request_id: "2".to_string(),
            outcome: Ok(Value::Text("hi".to_string())),
        })
    );
    match server.handle("s", echo_call("3", Vec::new()), 0) {
        Response::Answer(result) => {
            assert_eq!(result.request_id, "3");
            match result.outcome {
                Err(error) => {
                    assert_eq!(error.kind, ErrorKind::InvalidArguments);
                    assert_eq!(error.kind.name(), "InvalidArguments");
                    assert_eq!(error.detail, Some("text".to_string()));
                },
                Ok(v) => panic!("a payload came back: {:?}", v),
            }
        },
        other => panic!("no answer: {:?}", other),
    }
}

#[test]
fn answer_carries_the_id_of_its_request() {
    let mut server = match Server::build(vec![EchoRouter::new()], 1000) {
        Ok(server) => server,
        Err(e) => panic!("the server did not start: {:?}", e),
    };
    for id in ["", "a", "same", "same", "17"] {
        let request = echo_call(id, vec![Field::new("text", Value::Text(id.to_string()))]);
        let response = server.handle("s", request, 5);
        assert_eq!(response.request_id(), id);
    }
    let listed = server.handle("s", Request::ListTools { id: "x9".to_string() }, 5);
    assert_eq!(listed.request_id(), "x9");
}

#[test]
fn late_answer_is_dropped() {
    let registry = Registry::new();
    let mut endpoint = Endpoint::new();
    assert_eq!(endpoint.pending(), 0);
    let step = endpoint.receive(&registry, echo_call("7", Vec::new()));
    match step {
        Step::Dispatch(call) => assert_eq!(call.request_id, "7"),
        other => panic!("the call did not go on: {:?}", other),
    }
    assert!(endpoint.awaits("7"));
    assert_eq!(endpoint.pending(), 1);
    let timeout = InvocationResult {
        request_id: "7".to_string(),
        outcome: Err(InvocationError::plain(ErrorKind::Timeout, "late")),
    };
    match endpoint.complete(timeout) {
        Some(Response::Answer(result)) => {
            assert_eq!(result.request_id, "7");
            assert_eq!(result.outcome, Err(InvocationError::plain(ErrorKind::Timeout, "late")));
        },
        other => panic!("the timeout did not go out: {:?}", other),
    }
    assert!(!endpoint.awaits("7"));
    let late = InvocationResult { request_id: "7".to_string(), outcome: Ok(Value::Null) };
    assert_eq!(endpoint.complete(late), None);
    assert_eq!(endpoint.pending(), 0);
    let stray = InvocationResult { request_id: "8".to_string(), outcome: Ok(Value::Null) };
    assert_eq!(endpoint.complete(stray), None);
}

#[test]
fn id_in_flight_is_refused() {
    let registry = Registry::new();
    let mut endpoint = Endpoint::new();
    endpoint.receive(&registry, echo_call("7", Vec::new()));
    endpoint.receive(&registry, echo_call("8", Vec::new()));
    match endpoint.receive(&registry, echo_call("7", Vec::new())) {
        Step::Reply(Response::Answer(result)) => {
            assert_eq!(result.request_id, "7");
            assert_eq!(
                result.outcome,
                Err(InvocationError::plain(
                    ErrorKind::TransportError,
                    "a request with this id awaits its answer"
                ))
            );
        },
        other => panic!("the call was not refused: {:?}", other),
    }
    assert_eq!(endpoint.pending(), 2);
    let done = InvocationResult { request_id: "7".to_string(), outcome: Ok(Value::Null) };
    assert!(endpoint.complete(done).is_some());
    assert!(endpoint.awaits("8"));
    assert!(!endpoint.awaits("7"));
    match endpoint.receive(&registry, echo_call("7", Vec::new())) {
        Step::Dispatch(call) => assert_eq!(call.request_id, "7"),
        other => panic!("the call did not go on: {:?}", other),
    }
}

#[test]
fn list_of_tools_comes_from_the_registry() {
    let mut registry = Registry::new();
    let echo = EchoRouter::new();
    registry.register("echo", false, &echo.list_tools()).unwrap();
    let mut endpoint = Endpoint::new();
    match endpoint.receive(&registry, Request::ListTools { id: "q".to_string() }) {
        Step::Reply(Response::Tools { id, tools }) => {
            assert_eq!(id, "q");
            assert_eq!(tools, echo.list_tools());
        },
        other => panic!("no list of tools: {:?}", other),
    }
    assert_eq!(endpoint.pending(), 0);
}

#[test]
fn frames_on_the_wire() {
    assert_eq!(encode_frame(b"abc"), vec![0, 0, 0, 3, 97, 98, 99]);
    assert_eq!(encode_frame(b""), vec![0, 0, 0, 0]);
    let long = vec![9u8; 66051];
    let framed = encode_frame(&long);
    assert_eq!(&framed[..4], &[0, 1, 2, 3]);
    assert_eq!(framed.len(), 66055);
    assert_eq!(next_frame(&framed), FrameBounds::Frame { start: 4, end: 66055 });

    assert_eq!(next_frame(&[]), FrameBounds::Incomplete);
    assert_eq!(next_frame(&[0, 0, 0]), FrameBounds::Incomplete);
    assert_eq!(next_frame(&[0, 0, 0, 0]), FrameBounds::Frame { start: 4, end: 4 });
    assert_eq!(next_frame(&[0, 0, 0, 2, 1]), FrameBounds::Incomplete);
    assert_eq!(next_frame(&[0, 0, 0, 2, 1, 2]), FrameBounds::Frame { start: 4, end: 6 });
    assert_eq!(next_frame(&[0, 0, 0, 2, 1, 2, 3, 4]), FrameBounds::Frame { start: 4, end: 6 });
    assert_eq!(next_frame(&[0, 16, 0, 0]), FrameBounds::Incomplete);
    assert_eq!(next_frame(&[0, 16, 0, 1]), FrameBounds::Oversized);
    assert_eq!(next_frame(&[255, 255, 255, 255, 0]), FrameBounds::Oversized);
    assert_eq!(MAX_FRAME_LEN, 1048576);
}

#[test]
fn frames_one_after_another() {
    let mut stream = encode_frame(b"first");
    stream.extend(encode_frame(b"second"));
    let mut bodies: Vec<Vec<u8>> = Vec::new();
    let mut at = 0;
    loop {
        match next_frame(&stream[at..]) {
            FrameBounds::Frame { start, end } => {
                bodies.push(stream[at + start..at + end].to_vec());
                at += end;
            },
            FrameBounds::Incomplete => break,
            FrameBounds::Oversized => panic!("a frame was refused"),
        }
    }
    assert_eq!(bodies, vec![b"first".to_vec(), b"second".to_vec()]);
    assert_eq!(at, stream.len());
}
