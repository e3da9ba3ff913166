use tool_router::descriptor::{FieldRule, ToolDescriptor};
use tool_router::registry::{Registry, RegistryError};
use tool_router::router::{BuiltinRouter, EchoRouter, MemoryRouter, Router};
use tool_router::server::Server;
use tool_router::value::ValueKind;

fn tool(name: &str) -> ToolDescriptor {
    ToolDescriptor::new(name, "a tool", vec![FieldRule::new("x", ValueKind::Int, true)], None)
}

#[test]
fn tools_listed_in_registration_order() {
    let mut registry = Registry::new();
    assert_eq!(registry.register("first", false, &vec![tool("b"), tool("a")]), Ok(0));
    assert_eq!(registry.register("second", true, &vec![tool("c")]), Ok(1));
    assert_eq!(registry.register("third", false, &Vec::new()), Ok(2));
    let all = registry.list_all_tools();
    let names: Vec<&str> = all.iter().map(|d| d.name.as_str()).collect();
    assert_eq!(names, vec!["b", "a", "c"]);
    assert_eq!(all[0], tool("b"));
    assert_eq!(registry.tool_count(), 3);
    assert_eq!(registry.router_count(), 3);
    for i in 0..names.len() {
        for j in 0..i {
            assert_ne!(names[i], names[j]);
        }
    }
}

#[test]
fn shared_name_across_routers_is_refused() {
    let mut registry = Registry::new();
    assert_eq!(registry.register("one", false, &vec![tool("x")]), Ok(0));
    assert_eq!(
        registry.register("two", false, &vec![tool("y"), tool("x"), tool("y")]),
        Err(RegistryError::DuplicateTool("x".to_string()))
    );
    assert_eq!(registry.tool_count(), 1);
    assert_eq!(registry.router_count(), 1);
    assert_eq!(registry.resolve("y"), None);
}

#[test]
fn name_twice_in_one_router_is_refused() {
    let mut registry = Registry::new();
    assert_eq!(
        registry.register("one", false, &vec![tool("p"), tool("q"), tool("p")]),
        Err(RegistryError::DuplicateTool("p".to_string()))
    );
    assert_eq!(registry.tool_count(), 0);
    assert_eq!(registry.router_count(), 0);
}

#[test]
fn sealed_registry_takes_no_router() {
    let mut registry = Registry::new();
    assert!(!registry.sealed());
    assert_eq!(registry.register("one", false, &vec![tool("x")]), Ok(0));
    registry.seal();
    assert!(registry.sealed());
    assert_eq!(registry.register("two", false, &vec![tool("y")]), Err(RegistryError::Sealed));
    assert_eq!(registry.register("two", false, &vec![tool("x")]), Err(RegistryError::Sealed));
    assert_eq!(registry.tool_count(), 1);
}

#[test]
fn resolve_gives_the_owner() {
    let mut registry = Registry::new();
    registry.register("first", false, &vec![tool("a"), tool("b")]).unwrap();
    registry.register("second", true, &vec![tool("c")]).unwrap();
    assert_eq!(registry.resolve("a"), Some(0));
    assert_eq!(registry.resolve("b"), Some(0));
    assert_eq!(registry.resolve("c"), Some(1));
    assert_eq!(registry.resolve("d"), None);
    assert_eq!(registry.resolve(""), None);
    assert_eq!(registry.find_tool("c"), Some(2));
    assert_eq!(registry.find_tool("C"), None);
    assert_eq!(registry.owner(2), 1);
    assert_eq!(registry.descriptor(1).name, "b");
    assert_eq!(registry.router(1).id, "second");
    assert!(registry.router(1).stateful);
    assert!(!registry.router(0).stateful);
}

#[test]
fn server_with_two_routers_of_one_name_does_not_start() {
    let routers = vec![EchoRouter::new(), EchoRouter::new()];
    match Server::build(routers, 1000) {
        Err(e) => assert_eq!(e, RegistryError::DuplicateTool("echo".to_string())),
        Ok(_) => panic!("the server started"),
    }
}

#[test]
fn server_lists_the_tools_of_all_routers() {
    let routers =
        vec![BuiltinRouter::Echo(EchoRouter::new()), BuiltinRouter::Memory(MemoryRouter::new())];
    let server = match Server::build(routers, 1000) {
        Ok(server) => server,
        Err(e) => panic!("the server did not start: {:?}", e),
    };
    let all = server.dispatcher_ref().registry_ref().list_all_tools();
    let names: Vec<&str> = all.iter().map(|d| d.name.as_str()).collect();
    assert_eq!(names, vec!["echo", "memory_set", "memory_get", "memory_delete"]);
    assert_eq!(server.router_count(), 2);
    assert!(server.dispatcher_ref().registry_ref().sealed());
    assert_eq!(server.dispatcher_ref().timeout_ms(), 1000);
}

#[test]
fn builtin_routers_advertise_their_tools() {
    let text = |name: &str| FieldRule::new(name, ValueKind::Text, true);
    assert_eq!(
        EchoRouter::new().list_tools(),
        vec![ToolDescriptor::new(
            "echo",
            "Gives back the text",
            vec![text("text")],
            Some(ValueKind::Text)
        )]
    );
    let memory = vec![
        ToolDescriptor::new(
            "memory_set",
            "Keeps a text under a key for the session",
            vec![text("key"), text("value")],
            Some(ValueKind::Null),
        ),
        ToolDescriptor::new(
            "memory_get",
            "Gives the text kept under a key, or nothing",
            vec![text("key")],
            None,
        ),
        ToolDescriptor::new(
            "memory_delete",
            "Forgets the text kept under a key",
            vec![text("key")],
            Some(ValueKind::Bool),
        ),
    ];
    assert_eq!(MemoryRouter::new().list_tools(), memory);
    assert_eq!(BuiltinRouter::Memory(MemoryRouter::new()).list_tools(), memory);
    assert_eq!(BuiltinRouter::Echo(EchoRouter::new()).list_tools(), EchoRouter::new().list_tools());
}

#[test]
fn server_without_routers_starts() {
    let routers: Vec<EchoRouter> = Vec::new();
    match Server::build(routers, 5) {
        Ok(server) => {
            assert_eq!(server.router_count(), 0);
            assert_eq!(server.dispatcher_ref().registry_ref().tool_count(), 0);
        },
        Err(e) => panic!("the server did not start: {:?}", e),
    }
}

#[test]
fn server_keeps_a_record_of_each_router() {
    let routers =
        vec![BuiltinRouter::Memory(MemoryRouter::new()), BuiltinRouter::Echo(EchoRouter::new())];
    let server = match Server::build(routers, 1000) {
        Ok(server) => server,
        Err(e) => panic!("the server did not start: {:?}", e),
    };
    let registry = server.dispatcher_ref().registry_ref();
    assert_eq!(registry.router(0).id, "memory");
    assert!(registry.router(0).stateful);
    assert_eq!(registry.router(1).id, "echo");
    assert!(!registry.router(1).stateful);
    assert_eq!(registry.resolve("memory_delete"), Some(0));
    assert_eq!(registry.resolve("echo"), Some(1));
}
