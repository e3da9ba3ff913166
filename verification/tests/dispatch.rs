use tool_router::descriptor::{
    validate_arguments, validate_payload, DescriptorModel, FieldRule, Reason, ToolDescriptor,
    Violation,
};
use tool_router::dispatcher::{
    call_router, deadline_for, expired, Dispatcher, InvocationRequest, Outcome, Plan, Ticket,
    DEFAULT_TIMEOUT_MS,
};
use tool_router::error::{ErrorKind, InvocationError, InvocationResult};
use tool_router::registry::Registry;
use tool_router::router::{Invocation, LifecycleState, Router, RouterFailure};
use tool_router::session::SessionStore;
use tool_router::value::{Field, Value, ValueKind, ValueModel};
use vstd::map::Map;
use vstd::seq::Seq;

struct Counting {
    calls: usize,
    state: LifecycleState,
    stateful: bool,
    answer: Result<i64, &'static str>,
}

impl Counting {
    fn new() -> Counting {
        Counting { calls: 0, state: LifecycleState::Ready, stateful: false, answer: Ok(7) }
    }
}

impl Router for Counting {
    fn name(&self) -> Seq<char> {
        panic!("read in proofs only")
    }

    fn advertised(&self) -> Seq<DescriptorModel> {
        panic!("read in proofs only")
    }

    fn keeps_state(&self) -> bool {
        self.stateful
    }

    fn answers(
        &self,
        _after: &Self,
        _call: Invocation,
        _store_before: Map<(Seq<char>, Seq<char>), ValueModel>,
        _store_after: Map<(Seq<char>, Seq<char>), ValueModel>,
        _result: Result<ValueModel, Seq<char>>,
    ) -> bool {
        panic!("read in proofs only")
    }

    fn id(&self) -> String {
        "counting".to_string()
    }

    fn list_tools(&self) -> Vec<ToolDescriptor> {
        vec![ToolDescriptor::new(
            "count",
            "counts its calls",
            vec![
                FieldRule::new("by", ValueKind::Int, true),
                FieldRule::new("note", ValueKind::Text, false),
            ],
            Some(ValueKind::Int),
        )]
    }

    fn stateful(&self) -> bool {
        self.stateful
    }

    fn lifecycle(&self) -> LifecycleState {
        self.state
    }

    fn state(&self) -> LifecycleState {
        self.state
    }

    fn invoke(
        &mut self,
        _tool_name: &str,
        _arguments: &Vec<Field>,
        session: &str,
        store: &mut SessionStore,
        _deadline_ms: u64,
    ) -> Result<Value, RouterFailure> {
        self.calls += 1;
        store.set(session, "seen", Value::Bool(true));
        match self.answer {
            Ok(n) => Ok(Value::Int(n)),
            Err(message) => Err(RouterFailure::new(message)),
        }
    }
}

fn dispatcher_for(router: &Counting) -> Dispatcher {
    let mut registry = Registry::new();
    registry.register(&router.id(), router.stateful(), &router.list_tools()).unwrap();
    Dispatcher::new(registry, 250)
}

fn call(id: &str, tool: &str, arguments: Vec<Field>) -> InvocationRequest {
    InvocationRequest { request_id: id.to_string(), tool_name: tool.to_string(), arguments }
}

fn error_of(result: &InvocationResult) -> &InvocationError {
    match &result.outcome {
        Err(e) => e,
        Ok(v) => panic!("a payload came back: {:?}", v),
    }
}

#[test]
fn unknown_tool_never_reaches_a_router() {
    let mut routers = vec![Counting::new()];
    let dispatcher = dispatcher_for(&routers[0]);
    let mut store = SessionStore::new();
    for name in ["nope", "", "Count", "count "] {
        let request = call("r1", name, vec![Field::new("by", Value::Int(1))]);
        let result = dispatcher.dispatch(&mut routers, &mut store, "s", &request, 0);
        assert_eq!(result.request_id, "r1");
        let error = error_of(&result);
        assert_eq!(error.kind, ErrorKind::UnknownTool);
        assert_eq!(error.message, "no router owns a tool of this name");
        assert_eq!(error.detail, Some(name.to_string()));
    }
    assert_eq!(routers[0].calls, 0);
    assert_eq!(store.len(), 0);
}

#[test]
fn missing_required_field_never_reaches_the_router() {
    let mut routers = vec![Counting::new()];
    let dispatcher = dispatcher_for(&routers[0]);
    let mut store = SessionStore::new();
    let request = call("r2", "count", vec![Field::new("note", Value::Text("hi".to_string()))]);
    let result = dispatcher.dispatch(&mut routers, &mut store, "s", &request, 0);
    assert_eq!(
        result,
        InvocationResult {
            request_id: "r2".to_string(),
            outcome: Err(InvocationError {
                kind: ErrorKind::InvalidArguments,
                message: "required field is missing".to_string(),
                detail: Some("by".to_string()),
            }),
        }
    );
    let empty = call("r3", "count", Vec::new());
    let result = dispatcher.dispatch(&mut routers, &mut store, "s", &empty, 0);
    assert_eq!(error_of(&result).kind, ErrorKind::InvalidArguments);
    assert_eq!(routers[0].calls, 0);
    assert_eq!(store.len(), 0);
}

#[test]
fn wrong_kind_is_rejected_with_its_field() {
    let mut routers = vec![Counting::new()];
    let dispatcher = dispatcher_for(&routers[0]);
    let mut store = SessionStore::new();
    let request = call(
        "r4",
        "count",
        vec![Field::new("by", Value::Int(1)), Field::new("note", Value::Bool(true))],
    );
    let result = dispatcher.dispatch(&mut routers, &mut store, "s", &request, 0);
    let error = error_of(&result);
    assert_eq!(error.kind, ErrorKind::InvalidArguments);
    assert_eq!(error.message, "field holds a value of the wrong kind");
    assert_eq!(error.detail, Some("note".to_string()));
    assert_eq!(routers[0].calls, 0);
}

#[test]
fn valid_call_reaches_the_router_once() {
    let mut routers = vec![Counting::new()];
    let dispatcher = dispatcher_for(&routers[0]);
    let mut store = SessionStore::new();
    let request = call(
        "r5",
        "count",
        vec![Field::new("extra", Value::Null), Field::new("by", Value::Int(1))],
    );
    let result = dispatcher.dispatch(&mut routers, &mut store, "s", &request, 0);
    assert_eq!(
        result,
        InvocationResult { request_id: "r5".to_string(), outcome: Ok(Value::Int(7)) }
    );
    assert_eq!(routers[0].calls, 1);
}

#[test]
fn stateless_router_does_not_touch_the_store() {
    let mut routers = vec![Counting::new()];
    let dispatcher = dispatcher_for(&routers[0]);
    let mut store = SessionStore::new();
    let request = call("r6", "count", vec![Field::new("by", Value::Int(1))]);
    dispatcher.dispatch(&mut routers, &mut store, "s", &request, 0);
    assert_eq!(routers[0].calls, 1);
    assert_eq!(store.len(), 0);
    assert_eq!(store.get("s", "seen"), None);
}

#[test]
fn stateful_router_works_on_the_session() {
    let mut router = Counting::new();
    router.stateful = true;
    let mut routers = vec![router];
    let dispatcher = dispatcher_for(&routers[0]);
    let mut store = SessionStore::new();
    let request = call("r7", "count", vec![Field::new("by", Value::Int(1))]);
    dispatcher.dispatch(&mut routers, &mut store, "s9", &request, 0);
    assert_eq!(store.get("s9", "seen"), Some(Value::Bool(true)));
    assert_eq!(store.get("s", "seen"), None);
}

#[test]
fn router_failure_becomes_an_internal_error() {
    let mut router = Counting::new();
    router.answer = Err("disk on fire");
    let mut routers = vec![router];
    let dispatcher = dispatcher_for(&routers[0]);
    let mut store = SessionStore::new();
    let request = call("r8", "count", vec![Field::new("by", Value::Int(1))]);
    let result = dispatcher.dispatch(&mut routers, &mut store, "s", &request, 0);
    assert_eq!(
        error_of(&result),
        &InvocationError {
            kind: ErrorKind::RouterInternalError,
            message: "disk on fire".to_string(),
            detail: None,
        }
    );
    assert_eq!(routers[0].calls, 1);
}

#[test]
fn router_that_is_not_ready_is_not_called() {
    for state in
        [LifecycleState::Uninitialized, LifecycleState::ShuttingDown, LifecycleState::Failed]
    {
        let mut router = Counting::new();
        router.state = state;
        let mut routers = vec![router];
        let dispatcher = dispatcher_for(&routers[0]);
        let mut store = SessionStore::new();
        let request = call("r9", "count", vec![Field::new("by", Value::Int(1))]);
        let result = dispatcher.dispatch(&mut routers, &mut store, "s", &request, 0);
        let error = error_of(&result);
        assert_eq!(error.kind, ErrorKind::RouterInternalError);
        assert_eq!(error.message, "the router is not ready");
        assert_eq!(routers[0].calls, 0);
    }
    assert!(LifecycleState::Ready.takes_calls());
    assert!(!LifecycleState::Failed.takes_calls());
}

#[test]
fn plan_names_router_tool_and_deadline() {
    let router = Counting::new();
    let dispatcher = dispatcher_for(&router);
    let request = call("r10", "count", vec![Field::new("by", Value::Int(1))]);
    assert_eq!(
        dispatcher.plan(&request, 1000),
        Plan::Invoke(Ticket { router: 0, tool: 0, stateful: false, deadline_ms: 1250 })
    );
    assert_eq!(
        dispatcher.plan(&request, u64::MAX - 10),
        Plan::Invoke(Ticket { router: 0, tool: 0, stateful: false, deadline_ms: u64::MAX })
    );
    let unknown = call("r11", "other", Vec::new());
    assert_eq!(
        dispatcher.plan(&unknown, 0),
        Plan::Reject(InvocationError::about(
            ErrorKind::UnknownTool,
            "no router owns a tool of this name",
            "other"
        ))
    );
}

#[test]
fn expired_call_is_a_timeout() {
    let router = Counting::new();
    let dispatcher = dispatcher_for(&router);
    let ticket = Ticket { router: 0, tool: 0, stateful: false, deadline_ms: 250 };
    let result = dispatcher.conclude(&ticket, "r12", Outcome::Expired);
    assert_eq!(
        result,
        InvocationResult {
            request_id: "r12".to_string(),
            outcome: Err(InvocationError {
                kind: ErrorKind::Timeout,
                message: "the router did not answer before the deadline".to_string(),
                detail: None,
            }),
        }
    );
}

#[test]
fn payload_against_the_output_schema() {
    let router = Counting::new();
    let dispatcher = dispatcher_for(&router);
    let ticket = Ticket { router: 0, tool: 0, stateful: false, deadline_ms: 250 };
    let good = dispatcher.conclude(&ticket, "a", Outcome::Returned(Ok(Value::Int(3))));
    assert_eq!(good.outcome, Ok(Value::Int(3)));
    let bad =
        dispatcher.conclude(&ticket, "b", Outcome::Returned(Ok(Value::Text("3".to_string()))));
    assert_eq!(
        bad.outcome,
        Err(InvocationError {
            kind: ErrorKind::RouterInternalError,
            message: "the payload does not fit the output schema".to_string(),
            detail: Some("count".to_string()),
        })
    );
    assert!(validate_payload(&None, &Value::Null));
    assert!(validate_payload(&Some(ValueKind::Bool), &Value::Bool(false)));
    assert!(!validate_payload(&Some(ValueKind::Null), &Value::Bool(false)));
}

#[test]
fn deadlines() {
    assert_eq!(deadline_for(0, 0), 0);
    assert_eq!(deadline_for(1000, DEFAULT_TIMEOUT_MS), 31000);
    assert_eq!(deadline_for(u64::MAX, 1), u64::MAX);
    assert_eq!(deadline_for(u64::MAX - 5, 5), u64::MAX);
    assert_eq!(deadline_for(u64::MAX - 5, 4), u64::MAX - 1);
    assert!(expired(100, 100));
    assert!(expired(100, 101));
    assert!(!expired(100, 99));
}

#[test]
fn first_broken_rule_is_reported() {
    let schema = vec![
        FieldRule::new("a", ValueKind::Int, false),
        FieldRule::new("b", ValueKind::Text, true),
        FieldRule::new("c", ValueKind::Bool, true),
    ];
    assert_eq!(
        validate_arguments(&schema, &Vec::new()),
        Err(Violation { field: "b".to_string(), reason: Reason::Missing })
    );
    let wrong_first = vec![Field::new("a", Value::Null)];
    assert_eq!(
        validate_arguments(&schema, &wrong_first),
        Err(Violation { field: "a".to_string(), reason: Reason::WrongKind })
    );
    let only_c_missing = vec![Field::new("b", Value::Text(String::new()))];
    assert_eq!(
        validate_arguments(&schema, &only_c_missing),
        Err(Violation { field: "c".to_string(), reason: Reason::Missing })
    );
    let good = vec![
        Field::new("c", Value::Bool(true)),
        Field::new("b", Value::Text("x".to_string())),
        Field::new("zzz", Value::Int(0)),
    ];
    assert_eq!(validate_arguments(&schema, &good), Ok(()));
    let first_occurrence_counts = vec![
        Field::new("b", Value::Int(1)),
        Field::new("b", Value::Text("x".to_string())),
        Field::new("c", Value::Bool(true)),
    ];
    assert_eq!(
        validate_arguments(&schema, &first_occurrence_counts),
        Err(Violation { field: "b".to_string(), reason: Reason::WrongKind })
    );
    assert_eq!(validate_arguments(&Vec::new(), &good), Ok(()));
}

#[test]
fn error_kinds_on_the_wire() {
    assert_eq!(ErrorKind::UnknownTool.name(), "UnknownTool");
    assert_eq!(ErrorKind::InvalidArguments.name(), "InvalidArguments");
    assert_eq!(ErrorKind::Timeout.name(), "Timeout");
    assert_eq!(ErrorKind::RouterInternalError.name(), "RouterInternalError");
    assert_eq!(ErrorKind::TransportError.name(), "TransportError");
    assert!(ErrorKind::UnknownTool.is_request_fault());
    assert!(ErrorKind::InvalidArguments.is_request_fault());
    assert!(!ErrorKind::Timeout.is_request_fault());
    assert!(ErrorKind::Timeout.is_server_fault());
    assert!(ErrorKind::RouterInternalError.is_server_fault());
    assert!(!ErrorKind::InvalidArguments.is_server_fault());
    assert!(!ErrorKind::TransportError.is_server_fault());
    assert!(!ErrorKind::TransportError.is_request_fault());
}

#[test]
fn call_router_decides_store_and_readiness() {
    let request = call("c1", "count", vec![Field::new("by", Value::Int(1))]);
    let mut store = SessionStore::new();
    let mut router = Counting::new();
    let aside = Ticket { router: 0, tool: 0, stateful: false, deadline_ms: 9 };
    assert_eq!(call_router(&mut router, &aside, &request, "s", &mut store), Ok(Value::Int(7)));
    assert_eq!(router.calls, 1);
    assert_eq!(store.len(), 0);
    let on_session = Ticket { router: 0, tool: 0, stateful: true, deadline_ms: 9 };
    assert_eq!(call_router(&mut router, &on_session, &request, "s", &mut store), Ok(Value::Int(7)));
    assert_eq!(router.calls, 2);
    assert_eq!(store.get("s", "seen"), Some(Value::Bool(true)));
    router.state = LifecycleState::Failed;
    assert_eq!(
        call_router(&mut router, &on_session, &request, "t", &mut store),
        Err(RouterFailure::new("the router is not ready"))
    );
    assert_eq!(router.calls, 2);
    assert_eq!(store.get("t", "seen"), None);
}
