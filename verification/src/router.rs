//! What a router is to the dispatcher, and two routers: one that keeps
//! facts in the caller's session and one that echoes.

use crate::descriptor::{rules_view, DescriptorModel, FieldRule, RuleModel, ToolDescriptor};
use crate::registry::descriptors_view;
use crate::session::SessionStore;
use crate::text::{copy_text, same_text};
use crate::value::{fields_view, find_field, lookup, Field, FieldModel, Value, ValueKind, ValueModel};
use vstd::prelude::*;
use vstd::string::*;

verus! {

/// Where a router stands in its life.
#[derive(Clone, Copy, Debug, PartialEq, Eq, Structural)]
pub enum LifecycleState {
    Uninitialized,
    Ready,
    ShuttingDown,
    Failed,
}

impl LifecycleState {
    /// Whether a router in this state takes calls: only a ready one does.
    pub fn takes_calls(&self) -> (r: bool)
        ensures
            r == (*self == LifecycleState::Ready),
    {
        match self {
            LifecycleState::Ready => true,
            _ => false,
        }
    }
}

/// A failure that a router reports.
#[derive(Debug, PartialEq)]
pub struct RouterFailure {
    pub message: String,
}

impl RouterFailure {
    pub fn new(message: &str) -> (r: RouterFailure)
        ensures
            r.message@ == message@,
    {
        RouterFailure { message: copy_text(message) }
    }
}

/// What a router is asked to do in one call.
pub struct Invocation {
    pub tool_name: Seq<char>,
    pub arguments: Seq<FieldModel>,
    pub session: Seq<char>,
    pub deadline_ms: u64,
}

/// What a router returned: the payload, or the message of its failure.
pub open spec fn returned_view(r: Result<Value, RouterFailure>) -> Result<ValueModel, Seq<char>> {
    match r {
        Ok(v) => Ok(v@),
        Err(f) => Err(f.message@),
    }
}

/// A unit that owns a fixed set of tools and carries out calls of them.
pub trait Router {
    /// The name of the router.
    spec fn name(&self) -> Seq<char>;

    /// The tools that the router owns, in the order in which it declares
    /// them.
    spec fn advertised(&self) -> Seq<DescriptorModel>;

    /// Whether the router keeps state in the caller's session.
    spec fn keeps_state(&self) -> bool;

    /// Where the router stands in its life.
    spec fn lifecycle(&self) -> LifecycleState;

    /// Whether the router, asked to do `call` on a store that holds
    /// `store_before`, may return `result` and leave itself as `after`
    /// and the store with `store_after`.
    spec fn answers(
        &self,
        after: &Self,
        call: Invocation,
        store_before: Map<(Seq<char>, Seq<char>), ValueModel>,
        store_after: Map<(Seq<char>, Seq<char>), ValueModel>,
        result: Result<ValueModel, Seq<char>>,
    ) -> bool;

    /// The name of the router.
    fn id(&self) -> (r: String)
        ensures
            r@ == self.name(),
    ;

    /// The tools that the router owns, in the order in which it declares
    /// them.
    fn list_tools(&self) -> (r: Vec<ToolDescriptor>)
        ensures
            descriptors_view(r@) == self.advertised(),
    ;

    /// Whether the router keeps state in the caller's session.
    fn stateful(&self) -> (r: bool)
        ensures
            r == self.keeps_state(),
    ;

    /// Where the router stands in its life.
    fn state(&self) -> (r: LifecycleState)
        ensures
            r == self.lifecycle(),
    ;

    /// Carries out one call. The router answers for its own tools only, and
    /// is to give up once `deadline_ms` has passed. What it keeps for the
    /// caller it keeps in `store`, under `session`.
    fn invoke(
        &mut self,
        tool_name: &str,
        arguments: &Vec<Field>,
        session: &str,
        store: &mut SessionStore,
        deadline_ms: u64,
    ) -> (r: Result<Value, RouterFailure>)
        requires
            old(store).wf(),
        ensures
            final(store).wf(),
            old(self).answers(
                final(self),
                Invocation {
                    tool_name: tool_name@,
                    arguments: fields_view(arguments@),
                    session: session@,
                    deadline_ms,
                },
                old(store)@,
                final(store)@,
                returned_view(r),
            ),
    ;
}

/// The text under `name` in the arguments, if the first field of that name
/// holds a text.
pub open spec fn text_argument(args: Seq<FieldModel>, name: Seq<char>) -> Option<Seq<char>> {
    match lookup(args, name) {
        Some(ValueModel::Text(t)) => Some(t),
        _ => None,
    }
}

/// The text under `name` in the arguments.
pub fn text_of<'a>(arguments: &'a Vec<Field>, name: &str) -> (r: Option<&'a str>)
    ensures
        match r {
            Some(t) => text_argument(fields_view(arguments@), name@) == Some(t@),
            None => text_argument(fields_view(arguments@), name@) is None,
        },
{
    match find_field(arguments, name) {
        Some(i) => match &arguments[i].value {
            Value::Text(t) => Some(t.as_str()),
            _ => None,
        },
        None => None,
    }
}

/// A rule for a text that the call must hold.
pub open spec fn required_text(name: Seq<char>) -> RuleModel {
    RuleModel { name, kind: ValueKind::Text, required: true }
}

/// What a call of the memory router gives, and what it leaves in the store.
pub struct MemoryStep {
    pub store: Map<(Seq<char>, Seq<char>), ValueModel>,
    /// The payload, or nothing where the router refuses the call.
    pub payload: Option<ValueModel>,
}

/// One call of the memory router. `memory_set` puts the text `value` under
/// the text `key` and answers with nothing; `memory_get` answers with what
/// is under `key`, or with nothing where the key is unset; `memory_delete`
/// takes the key out and says whether it was set. A call of another name,
/// or without the texts it needs, is refused and changes nothing.
pub open spec fn memory_step(
    store: Map<(Seq<char>, Seq<char>), ValueModel>,
    session: Seq<char>,
    tool: Seq<char>,
    args: Seq<FieldModel>,
) -> MemoryStep {
    match text_argument(args, "key"@) {
        None => MemoryStep { store, payload: None },
        Some(key) => if tool == "memory_set"@ {
            match text_argument(args, "value"@) {
                Some(value) => MemoryStep {
                    store: store.insert((session, key), ValueModel::Text(value)),
                    payload: Some(ValueModel::Null),
                },
                None => MemoryStep { store, payload: None },
            }
        } else if tool == "memory_get"@ {
            MemoryStep {
                store,
                payload: Some(
                    if store.contains_key((session, key)) {
                        store[(session, key)]
                    } else {
                        ValueModel::Null
                    },
                ),
            }
        } else if tool == "memory_delete"@ {
            MemoryStep {
                store: store.remove((session, key)),
                payload: Some(ValueModel::Bool(store.contains_key((session, key)))),
            }
        } else {
            MemoryStep { store, payload: None }
        },
    }
}

/// The tools of the memory router.
pub open spec fn memory_tools() -> Seq<DescriptorModel> {
    seq![
        DescriptorModel {
            name: "memory_set"@,
            description: "Keeps a text under a key for the session"@,
            input_schema: seq![required_text("key"@), required_text("value"@)],
            output_schema: Some(ValueKind::Null),
        },
        DescriptorModel {
            name: "memory_get"@,
            description: "Gives the text kept under a key, or nothing"@,
            input_schema: seq![required_text("key"@)],
            output_schema: None,
        },
        DescriptorModel {
            name: "memory_delete"@,
            description: "Forgets the text kept under a key"@,
            input_schema: seq![required_text("key"@)],
            output_schema: Some(ValueKind::Bool),
        },
    ]
}

/// The router that keeps facts for a session: texts by key.
#[derive(Debug)]
pub struct MemoryRouter {
    pub state: LifecycleState,
}

impl MemoryRouter {
    /// A memory router that is ready.
    pub fn new() -> (r: MemoryRouter)
        ensures
            r.state == LifecycleState::Ready,
    {
        MemoryRouter { state: LifecycleState::Ready }
    }
}

impl Router for MemoryRouter {
    open spec fn name(&self) -> Seq<char> {
        "memory"@
    }

    open spec fn advertised(&self) -> Seq<DescriptorModel> {
        memory_tools()
    }

    open spec fn keeps_state(&self) -> bool {
        true
    }

    open spec fn lifecycle(&self) -> LifecycleState {
        self.state
    }

    open spec fn answers(
        &self,
        after: &Self,
        call: Invocation,
        store_before: Map<(Seq<char>, Seq<char>), ValueModel>,
        store_after: Map<(Seq<char>, Seq<char>), ValueModel>,
        result: Result<ValueModel, Seq<char>>,
    ) -> bool {
        let step = memory_step(store_before, call.session, call.tool_name, call.arguments);
        &&& after.state == self.state
        &&& store_after == step.store
        &&& match step.payload {
            Some(v) => result == Ok::<ValueModel, Seq<char>>(v),
            None => result is Err,
        }
    }

    fn id(&self) -> (r: String) {
        copy_text("memory")
    }

    fn list_tools(&self) -> (r: Vec<ToolDescriptor>) {
        let mut tools: Vec<ToolDescriptor> = Vec::new();
        let mut set_rules: Vec<FieldRule> = Vec::new();
        set_rules.push(FieldRule::new("key", ValueKind::Text, true));
        set_rules.push(FieldRule::new("value", ValueKind::Text, true));
        let ghost set_schema = set_rules@;
        tools.push(
            ToolDescriptor::new(
                "memory_set",
                "Keeps a text under a key for the session",
                set_rules,
                Some(ValueKind::Null),
            ),
        );
        let mut get_rules: Vec<FieldRule> = Vec::new();
        get_rules.push(FieldRule::new("key", ValueKind::Text, true));
        let ghost get_schema = get_rules@;
        tools.push(
            ToolDescriptor::new(
                "memory_get",
                "Gives the text kept under a key, or nothing",
                get_rules,
                None,
            ),
        );
        let mut delete_rules: Vec<FieldRule> = Vec::new();
        delete_rules.push(FieldRule::new("key", ValueKind::Text, true));
        let ghost delete_schema = delete_rules@;
        tools.push(
            ToolDescriptor::new(
                "memory_delete",
                "Forgets the text kept under a key",
                delete_rules,
                Some(ValueKind::Bool),
            ),
        );
        proof {
            assert(rules_view(set_schema) =~= seq![
                required_text("key"@),
                required_text("value"@),
            ]);
            assert(rules_view(get_schema) =~= seq![required_text("key"@)]);
            assert(rules_view(delete_schema) =~= seq![required_text("key"@)]);
            assert(descriptors_view(tools@) =~= memory_tools());
        }
        tools
    }

    fn stateful(&self) -> (r: bool) {
        true
    }

    fn state(&self) -> (r: LifecycleState) {
        self.state
    }

    fn invoke(
        &mut self,
        tool_name: &str,
        arguments: &Vec<Field>,
        session: &str,
        store: &mut SessionStore,
        deadline_ms: u64,
    ) -> (r: Result<Value, RouterFailure>) {
        let key: &str = match text_of(arguments, "key") {
            Some(k) => k,
            None => {
                return Err(RouterFailure::new("the call needs a text under key"));
            },
        };
        if same_text(tool_name, "memory_set") {
            match text_of(arguments, "value") {
                Some(value) => {
                    store.set(session, key, Value::Text(copy_text(value)));
                    Ok(Value::Null)
                },
                None => Err(RouterFailure::new("the call needs a text under value")),
            }
        } else if same_text(tool_name, "memory_get") {
            match store.get(session, key) {
                Some(v) => Ok(v),
                None => Ok(Value::Null),
            }
        } else if same_text(tool_name, "memory_delete") {
            let was_set: bool = store.delete(session, key);
            Ok(Value::Bool(was_set))
        } else {
            Err(RouterFailure::new("the memory router owns no such tool"))
        }
    }
}

/// What a call of the echo router gives: the text under `text`, for the
/// tool `echo`; nothing for any other call.
pub open spec fn echo_step(tool: Seq<char>, args: Seq<FieldModel>) -> Option<ValueModel> {
    if tool == "echo"@ {
        match text_argument(args, "text"@) {
            Some(t) => Some(ValueModel::Text(t)),
            None => None,
        }
    } else {
        None
    }
}

/// The tools of the echo router.
pub open spec fn echo_tools() -> Seq<DescriptorModel> {
    seq![
        DescriptorModel {
            name: "echo"@,
            description: "Gives back the text"@,
            input_schema: seq![required_text("text"@)],
            output_schema: Some(ValueKind::Text),
        },
    ]
}

/// The router that gives back the text it is handed.
#[derive(Debug)]
pub struct EchoRouter {
    pub state: LifecycleState,
}

impl EchoRouter {
    /// An echo router that is ready.
    pub fn new() -> (r: EchoRouter)
        ensures
            r.state == LifecycleState::Ready,
    {
        EchoRouter { state: LifecycleState::Ready }
    }
}

impl Router for EchoRouter {
    open spec fn name(&self) -> Seq<char> {
        "echo"@
    }

    open spec fn advertised(&self) -> Seq<DescriptorModel> {
        echo_tools()
    }

    open spec fn keeps_state(&self) -> bool {
        false
    }

    open spec fn lifecycle(&self) -> LifecycleState {
        self.state
    }

    open spec fn answers(
        &self,
        after: &Self,
        call: Invocation,
        store_before: Map<(Seq<char>, Seq<char>), ValueModel>,
        store_after: Map<(Seq<char>, Seq<char>), ValueModel>,
        result: Result<ValueModel, Seq<char>>,
    ) -> bool {
        &&& after.state == self.state
        &&& store_after == store_before
        &&& match echo_step(call.tool_name, call.arguments) {
            Some(v) => result == Ok::<ValueModel, Seq<char>>(v),
            None => result is Err,
        }
    }

    fn id(&self) -> (r: String) {
        copy_text("echo")
    }

    fn list_tools(&self) -> (r: Vec<ToolDescriptor>) {
        let mut tools: Vec<ToolDescriptor> = Vec::new();
        let mut rules: Vec<FieldRule> = Vec::new();
        rules.push(FieldRule::new("text", ValueKind::Text, true));
        let ghost schema = rules@;
        tools.push(
            ToolDescriptor::new("echo", "Gives back the text", rules, Some(ValueKind::Text)),
        );
        proof {
            assert(rules_view(schema) =~= seq![required_text("text"@)]);
            assert(descriptors_view(tools@) =~= echo_tools());
        }
        tools
    }

    fn stateful(&self) -> (r: bool) {
        false
    }

    fn state(&self) -> (r: LifecycleState) {
        self.state
    }

    fn invoke(
        &mut self,
        tool_name: &str,
        arguments: &Vec<Field>,
        session: &str,
        store: &mut SessionStore,
        deadline_ms: u64,
    ) -> (r: Result<Value, RouterFailure>) {
        if !same_text(tool_name, "echo") {
            return Err(RouterFailure::new("the echo router owns no such tool"));
        }
        match text_of(arguments, "text") {
            Some(t) => Ok(Value::Text(copy_text(t))),
            None => Err(RouterFailure::new("the call needs a text under text")),
        }
    }
}

/// One of the routers of this library.
#[derive(Debug)]
pub enum BuiltinRouter {
    Memory(MemoryRouter),
    Echo(EchoRouter),
}

impl Router for BuiltinRouter {
    open spec fn name(&self) -> Seq<char> {
        match *self {
            BuiltinRouter::Memory(m) => m.name(),
            BuiltinRouter::Echo(e) => e.name(),
        }
    }

    open spec fn advertised(&self) -> Seq<DescriptorModel> {
        match *self {
            BuiltinRouter::Memory(m) => m.advertised(),
            BuiltinRouter::Echo(e) => e.advertised(),
        }
    }

    open spec fn keeps_state(&self) -> bool {
        *self is Memory
    }

    open spec fn lifecycle(&self) -> LifecycleState {
        match *self {
            BuiltinRouter::Memory(m) => m.state,
            BuiltinRouter::Echo(e) => e.state,
        }
    }

    open spec fn answers(
        &self,
        after: &Self,
        call: Invocation,
        store_before: Map<(Seq<char>, Seq<char>), ValueModel>,
        store_after: Map<(Seq<char>, Seq<char>), ValueModel>,
        result: Result<ValueModel, Seq<char>>,
    ) -> bool {
        match (*self, *after) {
            (BuiltinRouter::Memory(m), BuiltinRouter::Memory(n)) => m.answers(
                &n,
                call,
                store_before,
                store_after,
                result,
            ),
            (BuiltinRouter::Echo(e), BuiltinRouter::Echo(f)) => e.answers(
                &f,
                call,
                store_before,
                store_after,
                result,
            ),
            _ => false,
        }
    }

    fn id(&self) -> (r: String) {
        match self {
            BuiltinRouter::Memory(m) => m.id(),
            BuiltinRouter::Echo(e) => e.id(),
        }
    }

    fn list_tools(&self) -> (r: Vec<ToolDescriptor>) {
        match self {
            BuiltinRouter::Memory(m) => m.list_tools(),
            BuiltinRouter::Echo(e) => e.list_tools(),
        }
    }

    fn stateful(&self) -> (r: bool) {
        match self {
            BuiltinRouter::Memory(m) => m.stateful(),
            BuiltinRouter::Echo(e) => e.stateful(),
        }
    }

    fn state(&self) -> (r: LifecycleState) {
        match self {
            BuiltinRouter::Memory(m) => m.state(),
            BuiltinRouter::Echo(e) => e.state(),
        }
    }

    fn invoke(
        &mut self,
        tool_name: &str,
        arguments: &Vec<Field>,
        session: &str,
        store: &mut SessionStore,
        deadline_ms: u64,
    ) -> (r: Result<Value, RouterFailure>) {
        match self {
            BuiltinRouter::Memory(m) => m.invoke(tool_name, arguments, session, store, deadline_ms),
            BuiltinRouter::Echo(e) => e.invoke(tool_name, arguments, session, store, deadline_ms),
        }
    }
}

} // verus!
