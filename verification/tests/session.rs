use tool_router::dispatcher::InvocationRequest;
use tool_router::endpoint::{Request, Response};
use tool_router::error::InvocationResult;
use tool_router::router::{BuiltinRouter, EchoRouter, MemoryRouter, Router};
use tool_router::server::Server;
use tool_router::session::SessionStore;
use tool_router::text::same_text;
use tool_router::value::{find_field, Field, Value, ValueKind};

fn memory_call(id: &str, tool: &str, arguments: Vec<Field>) -> Request {
    Request::CallTool(InvocationRequest {
        request_id: id.to_string(),
        tool_name: tool.to_string(),
        arguments,
    })
}

fn text(name: &str, value: &str) -> Field {
    Field::new(name, Value::Text(value.to_string()))
}

fn payload_of(response: Response) -> Value {
    match response {
        Response::Answer(InvocationResult { outcome: Ok(v), .. }) => v,
        other => panic!("no payload: {:?}", other),
    }
}

#[test]
fn memory_round_trip() {
    let routers =
        vec![BuiltinRouter::Memory(MemoryRouter::new()), BuiltinRouter::Echo(EchoRouter::new())];
    let mut server = match Server::build(routers, 1000) {
        Ok(server) => server,
        Err(e) => panic!("the server did not start: {:?}", e),
    };
    let set = memory_call("1", "memory_set", vec![text("key", "k"), text("value", "v")]);
    assert_eq!(payload_of(server.handle("s1", set, 0)), Value::Null);
    let get = memory_call("2", "memory_get", vec![text("key", "k")]);
    assert_eq!(payload_of(server.handle("s1", get, 0)), Value::Text("v".to_string()));
    let unset = memory_call("3", "memory_get", vec![text("key", "other")]);
    assert_eq!(payload_of(server.handle("s1", unset, 0)), Value::Null);
    let elsewhere = memory_call("4", "memory_get", vec![text("key", "k")]);
    assert_eq!(payload_of(server.handle("s2", elsewhere, 0)), Value::Null);
    assert_eq!(server.sessions().get("s1", "k"), Some(Value::Text("v".to_string())));
    let again = memory_call("5", "memory_set", vec![text("key", "k"), text("value", "w")]);
    server.handle("s1", again, 0);
    let get = memory_call("6", "memory_get", vec![text("key", "k")]);
    assert_eq!(payload_of(server.handle("s1", get, 0)), Value::Text("w".to_string()));
    let delete = memory_call("7", "memory_delete", vec![text("key", "k")]);
    assert_eq!(payload_of(server.handle("s1", delete, 0)), Value::Bool(true));
    let delete = memory_call("8", "memory_delete", vec![text("key", "k")]);
    assert_eq!(payload_of(server.handle("s1", delete, 0)), Value::Bool(false));
    let get = memory_call("9", "memory_get", vec![text("key", "k")]);
    assert_eq!(payload_of(server.handle("s1", get, 0)), Value::Null);
    let echo = memory_call("10", "echo", vec![text("text", "still here")]);
    assert_eq!(payload_of(server.handle("s1", echo, 0)), Value::Text("still here".to_string()));
    assert_eq!(server.sessions().len(), 0);
}

#[test]
fn routers_refuse_what_they_do_not_own() {
    let mut store = SessionStore::new();
    let mut memory = MemoryRouter::new();
    assert!(memory.invoke("echo", &vec![text("key", "k")], "s", &mut store, 0).is_err());
    assert!(memory.invoke("memory_set", &vec![text("key", "k")], "s", &mut store, 0).is_err());
    assert!(memory.invoke("memory_get", &Vec::new(), "s", &mut store, 0).is_err());
    assert_eq!(store.len(), 0);
    let mut echo = EchoRouter::new();
    assert!(echo.invoke("memory_get", &vec![text("text", "k")], "s", &mut store, 0).is_err());
    assert!(echo.invoke("echo", &Vec::new(), "s", &mut store, 0).is_err());
    assert_eq!(
        echo.invoke("echo", &vec![text("text", "k")], "s", &mut store, 0),
        Ok(Value::Text("k".to_string()))
    );
    assert_eq!(memory.id(), "memory");
    assert_eq!(echo.id(), "echo");
    assert!(memory.stateful());
    assert!(!echo.stateful());
}

#[test]
fn store_by_session_and_key() {
    let mut store = SessionStore::new();
    assert_eq!(store.get("s", "k"), None);
    store.set("s", "k", Value::Int(1));
    store.set("s", "j", Value::Int(2));
    store.set("t", "k", Value::Int(3));
    store.set("", "", Value::Null);
    assert_eq!(store.len(), 4);
    assert_eq!(store.get("s", "k"), Some(Value::Int(1)));
    assert_eq!(store.get("s", "j"), Some(Value::Int(2)));
    assert_eq!(store.get("t", "k"), Some(Value::Int(3)));
    assert_eq!(store.get("", ""), Some(Value::Null));
    assert_eq!(store.get("t", "j"), None);
    store.set("s", "k", Value::Text("new".to_string()));
    assert_eq!(store.len(), 4);
    assert_eq!(store.get("s", "k"), Some(Value::Text("new".to_string())));
    assert!(store.delete("s", "j"));
    assert!(!store.delete("s", "j"));
    assert_eq!(store.get("s", "j"), None);
    assert_eq!(store.len(), 3);
}

#[test]
fn closing_a_session_leaves_the_others() {
    let mut store = SessionStore::new();
    store.set("s", "a", Value::Int(1));
    store.set("t", "a", Value::Int(2));
    store.set("s", "b", Value::Int(3));
    store.set("s", "c", Value::Int(4));
    store.set("t", "b", Value::Int(5));
    assert_eq!(store.close("s"), 3);
    assert_eq!(store.len(), 2);
    assert_eq!(store.get("s", "a"), None);
    assert_eq!(store.get("s", "b"), None);
    assert_eq!(store.get("s", "c"), None);
    assert_eq!(store.get("t", "a"), Some(Value::Int(2)));
    assert_eq!(store.get("t", "b"), Some(Value::Int(5)));
    assert_eq!(store.close("s"), 0);
    assert_eq!(store.close("t"), 2);
    assert_eq!(store.len(), 0);
}

#[test]
fn values_and_fields() {
    assert_eq!(Value::Null.kind(), ValueKind::Null);
    assert_eq!(Value::Bool(true).kind(), ValueKind::Bool);
    assert_eq!(Value::Int(-1).kind(), ValueKind::Int);
    assert_eq!(Value::Text(String::new()).kind(), ValueKind::Text);
    let v = Value::Text("abc".to_string());
    assert_eq!(v.duplicate(), v);
    assert!(v.same(&Value::Text("abc".to_string())));
    assert!(!v.same(&Value::Text("abd".to_string())));
    assert!(!Value::Int(0).same(&Value::Bool(false)));
    assert!(Value::Null.same(&Value::Null));
    let fields = vec![text("a", "1"), text("b", "2"), text("a", "3")];
    assert_eq!(find_field(&fields, "a"), Some(0));
    assert_eq!(find_field(&fields, "b"), Some(1));
    assert_eq!(find_field(&fields, "c"), None);
    assert_eq!(fields[0].duplicate(), fields[0]);
    assert!(same_text("héllo", "héllo"));
    assert!(!same_text("héllo", "hello"));
    assert!(!same_text("a", "ab"));
    assert!(same_text("", ""));
}
